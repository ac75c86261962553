use vstd::prelude::*;
use crate::util::error::{Error, Result, msg};
use crate::codec::codec::CodecId;
use crate::codec::packet::Packet;
use crate::format::io::{IOContext, be_bytes, write_at, be_bytes_exec, lemma_le_bytes_len};
use crate::format::mux::Muxer;
use crate::format::stream::Stream;
use crate::format::mp4::table::{SampleEntry, sample_at, expand_runs, sample_duration, chunk_runs, chunk_map, spc_for, chunk_number};

verus! {

/// Collected sample info for building the sample table.
#[derive(Debug, Clone, Copy)]
pub struct SampleInfo {
    pub offset: u64,
    pub size: u32,
    pub duration: u32,
    pub is_sync: bool,
}

/// Per-track muxing state.
#[derive(Debug)]
pub struct TrackState {
    pub timescale: u32,
    pub samples: Vec<SampleInfo>,
    pub codec_tag: [u8; 4],
    pub is_audio: bool,
}

/// `v` as a big-endian field of `width` bytes (modulo its range).
pub open spec fn be(v: int, width: nat) -> Seq<u8> {
    be_bytes((v % crate::format::io::pow256(width as int)) as nat, width)
}

/// A field holds its value modulo its range.
pub proof fn lemma_be_mod(v: int, width: nat)
    ensures be(v % crate::format::io::pow256(width as int), width) == be(v, width),
{
    assert(crate::format::io::pow256(width as int) > 0) by {
        lemma_pow256_pos(width as int);
    }
    vstd::arithmetic::div_mod::lemma_mod_twice(v, crate::format::io::pow256(width as int));
}

proof fn lemma_pow256_pos(k: int)
    ensures crate::format::io::pow256(k) > 0,
    decreases k,
{
    if k > 0 { lemma_pow256_pos(k - 1); }
}

/// A field of `width` bytes has `width` bytes.
pub proof fn lemma_be_len(v: int, width: nat)
    ensures be(v, width).len() == width,
{
    lemma_le_bytes_len((v % crate::format::io::pow256(width as int)) as nat, width);
}

/// `n` zero bytes.
pub open spec fn zeros(n: nat) -> Seq<u8> {
    Seq::new(n, |_i: int| 0u8)
}

/// A box: its 32-bit size (header included), its type, its contents.
#[verifier::opaque]
pub open spec fn boxed(t: Seq<u8>, c: Seq<u8>) -> Seq<u8> {
    be((8 + c.len()) as int, 4) + t + c
}

/// A full box: a box whose contents start with a version byte and 24 flag
/// bits.
#[verifier::opaque]
pub open spec fn full_boxed(t: Seq<u8>, version: u8, flags: u32, c: Seq<u8>) -> Seq<u8> {
    boxed(t, be(version * 16777216 + flags % 16777216, 4) + c)
}

/// The ASCII bytes of a four-character code.
pub open spec fn fourcc(a: u8, b: u8, c: u8, d: u8) -> Seq<u8> {
    seq![a, b, c, d]
}

/// The identity transformation matrix of movie and track headers.
pub open spec fn matrix() -> Seq<u8> {
    be(0x10000, 4) + be(0, 4) + be(0, 4) + be(0, 4) + be(0x10000, 4) + be(0, 4) + be(0, 4) + be(0, 4) + be(0x40000000, 4)
}

/// The `ftyp` box: brand isom, minor version 0x200, compatible brands
/// isom, iso2 and mp41.
pub open spec fn ftyp_bytes() -> Seq<u8> {
    boxed(fourcc(0x66, 0x74, 0x79, 0x70), fourcc(0x69, 0x73, 0x6f, 0x6d) + be(0x200, 4)
        + fourcc(0x69, 0x73, 0x6f, 0x6d) + fourcc(0x69, 0x73, 0x6f, 0x32) + fourcc(0x6d, 0x70, 0x34, 0x31))
}

/// The movie header: time scale 1000, rate and volume 1, the next track ID.
#[verifier::opaque]
pub open spec fn mvhd_bytes(ntracks: nat) -> Seq<u8> {
    full_boxed(fourcc(0x6d, 0x76, 0x68, 0x64), 0, 0,
        be(0, 4) + be(0, 4) + be(1000, 4) + be(0, 4) + be(0x10000, 4) + be(0x100, 2) + zeros(10)
        + matrix() + zeros(24) + be((ntracks + 1) as int, 4))
}

/// The track header of track `idx` (ID `idx + 1`), enabled and in the movie.
#[verifier::opaque]
pub open spec fn tkhd_bytes(idx: nat) -> Seq<u8> {
    full_boxed(fourcc(0x74, 0x6b, 0x68, 0x64), 0, 3,
        be(0, 4) + be(0, 4) + be((idx + 1) as int, 4) + be(0, 4) + be(0, 4) + zeros(8) + be(0, 2) + be(0, 2)
        + be(0, 2) + be(0, 2) + matrix() + be(0, 4) + be(0, 4))
}

/// The sum of the sample durations, modulo 2^64.
pub open spec fn total_duration(s: Seq<SampleInfo>) -> nat
    decreases s.len(),
{
    if s.len() == 0 { 0 } else { ((total_duration(s.drop_last()) + s.last().duration) % 18446744073709551616) as nat }
}

/// The media header: the track's time scale and total duration, language
/// "und".
#[verifier::opaque]
pub open spec fn mdhd_bytes(t: TrackState) -> Seq<u8> {
    full_boxed(fourcc(0x6d, 0x64, 0x68, 0x64), 0, 0,
        be(0, 4) + be(0, 4) + be(t.timescale as int, 4) + be(total_duration(t.samples@) as int, 4)
        + be(0x55C4, 2) + be(0, 2))
}

/// The name of a handler, with its terminating zero byte.
pub open spec fn handler_name(is_audio: bool) -> Seq<u8> {
    if is_audio {
        seq![0x53u8, 0x6f, 0x75, 0x6e, 0x64, 0x48, 0x61, 0x6e, 0x64, 0x6c, 0x65, 0x72, 0]
    } else {
        seq![0x56u8, 0x69, 0x64, 0x65, 0x6f, 0x48, 0x61, 0x6e, 0x64, 0x6c, 0x65, 0x72, 0]
    }
}

/// The handler box: sound or video.
#[verifier::opaque]
pub open spec fn hdlr_bytes(t: TrackState) -> Seq<u8> {
    full_boxed(fourcc(0x68, 0x64, 0x6c, 0x72), 0, 0,
        be(0, 4) + (if t.is_audio { fourcc(0x73, 0x6f, 0x75, 0x6e) } else { fourcc(0x76, 0x69, 0x64, 0x65) })
        + zeros(12) + handler_name(t.is_audio))
}

/// The sample description: one minimal audio (stereo, 16 bits, the time
/// scale as rate) or video (1920x1080) entry of the track's codec.
#[verifier::opaque]
pub open spec fn stsd_bytes(t: TrackState) -> Seq<u8> {
    full_boxed(fourcc(0x73, 0x74, 0x73, 0x64), 0, 0,
        be(1, 4) + be(if t.is_audio { 36 } else { 86 }, 4) + t.codec_tag@ + zeros(6) + be(1, 2)
        + if t.is_audio {
            zeros(8) + be(2, 2) + be(16, 2) + be(0, 4) + be(t.timescale * 65536, 4)
        } else {
            zeros(16) + be(1920, 2) + be(1080, 2) + be(0x480000, 4) + be(0x480000, 4) + be(0, 4)
                + be(1, 2) + zeros(32) + be(0x18, 2) + be(0xFFFF, 2)
        })
}

/// Runs of equal durations: (count, duration) for each run of consecutive
/// samples with the same duration.
pub open spec fn duration_runs(s: Seq<SampleInfo>) -> Seq<(u32, u32)>
    decreases s.len(),
{
    if s.len() == 0 {
        Seq::empty()
    } else {
        let r = duration_runs(s.drop_last());
        if r.len() > 0 && r.last().1 == s.last().duration {
            r.drop_last().push((((r.last().0 + 1) % 4294967296) as u32, r.last().1))
        } else {
            r.push((1u32, s.last().duration))
        }
    }
}

/// The big-endian bytes of each run's count and duration.
pub open spec fn runs_bytes(r: Seq<(u32, u32)>) -> Seq<u8>
    decreases r.len(),
{
    if r.len() == 0 { Seq::empty() } else { runs_bytes(r.drop_last()) + be(r.last().0 as int, 4) + be(r.last().1 as int, 4) }
}

/// The time-to-sample box.
#[verifier::opaque]
pub open spec fn stts_bytes(t: TrackState) -> Seq<u8> {
    let r = duration_runs(t.samples@);
    full_boxed(fourcc(0x73, 0x74, 0x74, 0x73), 0, 0, be(r.len() as int, 4) + runs_bytes(r))
}

/// The big-endian bytes of each sample's size.
pub open spec fn sizes_bytes(s: Seq<SampleInfo>) -> Seq<u8>
    decreases s.len(),
{
    if s.len() == 0 { Seq::empty() } else { sizes_bytes(s.drop_last()) + be(s.last().size as int, 4) }
}

/// The sample size box: sizes vary, one per sample.
#[verifier::opaque]
pub open spec fn stsz_bytes(t: TrackState) -> Seq<u8> {
    full_boxed(fourcc(0x73, 0x74, 0x73, 0x7a), 0, 0, be(0, 4) + be(t.samples@.len() as int, 4) + sizes_bytes(t.samples@))
}

/// The sample-to-chunk box: one sample per chunk.
#[verifier::opaque]
pub open spec fn stsc_bytes() -> Seq<u8> {
    full_boxed(fourcc(0x73, 0x74, 0x73, 0x63), 0, 0, be(1, 4) + be(1, 4) + be(1, 4) + be(1, 4))
}

/// The big-endian bytes of each sample's offset, in `width` bytes.
pub open spec fn offsets_bytes(s: Seq<SampleInfo>, width: nat) -> Seq<u8>
    decreases s.len(),
{
    if s.len() == 0 { Seq::empty() } else { offsets_bytes(s.drop_last(), width) + be(s.last().offset as int, width) }
}

/// Whether some sample lies past what 32 bits can address.
pub open spec fn needs_64bit(s: Seq<SampleInfo>) -> bool {
    exists|i: int| 0 <= i < s.len() && s[i].offset > u32::MAX
}

/// The chunk offset box: 32-bit offsets (stco), or 64-bit ones (co64) when
/// some sample needs them.
#[verifier::opaque]
pub open spec fn stco_bytes(t: TrackState) -> Seq<u8> {
    if needs_64bit(t.samples@) {
        full_boxed(fourcc(0x63, 0x6f, 0x36, 0x34), 0, 0, be(t.samples@.len() as int, 4) + offsets_bytes(t.samples@, 8))
    } else {
        full_boxed(fourcc(0x73, 0x74, 0x63, 0x6f), 0, 0, be(t.samples@.len() as int, 4) + offsets_bytes(t.samples@, 4))
    }
}

/// The 1-based numbers (modulo 2^32) of the sync samples among the first `k`.
pub open spec fn sync_numbers(s: Seq<SampleInfo>, k: int) -> Seq<u32>
    decreases k,
{
    if k <= 0 { Seq::empty() }
    else if s[k - 1].is_sync { sync_numbers(s, k - 1).push((k % 4294967296) as u32) }
    else { sync_numbers(s, k - 1) }
}

/// The big-endian bytes of each number.
pub open spec fn u32s_bytes(v: Seq<u32>) -> Seq<u8>
    decreases v.len(),
{
    if v.len() == 0 { Seq::empty() } else { u32s_bytes(v.drop_last()) + be(v.last() as int, 4) }
}

/// The sync sample box, left out when every sample is a sync sample.
#[verifier::opaque]
pub open spec fn stss_bytes(t: TrackState) -> Seq<u8> {
    let v = sync_numbers(t.samples@, t.samples@.len() as int);
    if v.len() == t.samples@.len() { Seq::empty() }
    else { full_boxed(fourcc(0x73, 0x74, 0x73, 0x73), 0, 0, be(v.len() as int, 4) + u32s_bytes(v)) }
}

/// The track box of track `idx`.
#[verifier::opaque]
pub open spec fn trak_bytes(idx: nat, t: TrackState) -> Seq<u8> {
    let dref = full_boxed(fourcc(0x64, 0x72, 0x65, 0x66), 0, 0,
        be(1, 4) + full_boxed(fourcc(0x75, 0x72, 0x6c, 0x20), 0, 1, Seq::empty()));
    let stbl = boxed(fourcc(0x73, 0x74, 0x62, 0x6c),
        stsd_bytes(t) + stts_bytes(t) + stsz_bytes(t) + stsc_bytes() + stco_bytes(t) + stss_bytes(t));
    let minf = boxed(fourcc(0x6d, 0x69, 0x6e, 0x66), boxed(fourcc(0x64, 0x69, 0x6e, 0x66), dref) + stbl);
    let mdia = boxed(fourcc(0x6d, 0x64, 0x69, 0x61), mdhd_bytes(t) + hdlr_bytes(t) + minf);
    boxed(fourcc(0x74, 0x72, 0x61, 0x6b), tkhd_bytes(idx) + mdia)
}

/// The track boxes of the first `k` tracks.
pub open spec fn traks_bytes(ts: Seq<TrackState>, k: int) -> Seq<u8>
    decreases k,
{
    if k <= 0 { Seq::empty() } else { traks_bytes(ts, k - 1) + trak_bytes((k - 1) as nat, ts[k - 1]) }
}

/// The movie box: the movie header and a track box per track.
pub open spec fn moov_bytes(ts: Seq<TrackState>) -> Seq<u8> {
    boxed(fourcc(0x6d, 0x6f, 0x6f, 0x76), mvhd_bytes(ts.len()) + traks_bytes(ts, ts.len() as int))
}

// ── Byte builders ──

fn push_bytes(out: &mut Vec<u8>, b: &[u8])
    ensures final(out)@ == old(out)@ + b@,
{
    let mut i: usize = 0;
    while i < b.len()
        invariant i <= b@.len(), out@ == old(out)@ + b@.take(i as int),
        decreases b.len() - i,
    {
        out.push(b[i]);
        i += 1;
        assert(out@ =~= old(out)@ + b@.take(i as int));
    }
    assert(b@.take(b@.len() as int) =~= b@);
}

fn push_zeros(out: &mut Vec<u8>, n: usize)
    ensures final(out)@ == old(out)@ + zeros(n as nat),
{
    let mut i: usize = 0;
    while i < n
        invariant i <= n, out@ == old(out)@ + zeros(i as nat),
        decreases n - i,
    {
        out.push(0u8);
        i += 1;
        assert(out@ =~= old(out)@ + zeros(i as nat));
    }
}

fn push_be(out: &mut Vec<u8>, v: u64, width: usize)
    requires width == 2 || width == 4 || width == 8, v < crate::format::io::pow256(width as int),
    ensures final(out)@ == old(out)@ + be(v as int, width as nat),
{
    let b = be_bytes_exec(v, width);
    proof {
        assert(crate::format::io::pow256(width as int) > 0) by { reveal_with_fuel(crate::format::io::pow256, 9); }
        vstd::arithmetic::div_mod::lemma_small_mod(v as nat, crate::format::io::pow256(width as int) as nat);
    }
    push_bytes(out, b.as_slice());
}

fn push_be32(out: &mut Vec<u8>, v: u32)
    ensures final(out)@ == old(out)@ + be(v as int, 4),
{
    proof { reveal_with_fuel(crate::format::io::pow256, 5); }
    push_be(out, v as u64, 4);
}

fn push_be16(out: &mut Vec<u8>, v: u16)
    ensures final(out)@ == old(out)@ + be(v as int, 2),
{
    proof { reveal_with_fuel(crate::format::io::pow256, 3); }
    push_be(out, v as u64, 2);
}

/// Write a box: size(4) + type(4) + content.
fn write_box(out: &mut Vec<u8>, box_type: &[u8; 4], content: &Vec<u8>)
    ensures final(out)@ == old(out)@ + boxed(box_type@, content@),
{
    proof { reveal(boxed); }
    let size: u32 = (((content.len() as u64) % 4294967296 + 8) % 4294967296) as u32;
    push_be32(out, size);
    push_bytes(out, box_type);
    push_bytes(out, content.as_slice());
    proof {
        reveal_with_fuel(crate::format::io::pow256, 5);
        assert(crate::format::io::pow256(4) == 4294967296);
        let l = content@.len() as int;
        assert((l % 4294967296 + 8) % 4294967296 == (8 + l) % 4294967296) by {
            vstd::arithmetic::div_mod::lemma_add_mod_noop(l, 8, 4294967296);
            vstd::arithmetic::div_mod::lemma_small_mod(8, 4294967296);
        }
        assert(size as int == (8 + l) % 4294967296);
        assert((size as int) % 4294967296 == size as int);
        assert(be(size as int, 4) == be((8 + content@.len()) as int, 4));
        assert(old(out)@ + be(size as int, 4) + box_type@ + content@ =~= old(out)@ + boxed(box_type@, content@));
    }
}

/// Write a full box: size(4) + type(4) + version(1) + flags(3) + content.
fn write_full_box(out: &mut Vec<u8>, box_type: &[u8; 4], version: u8, flags: u32, content: &Vec<u8>)
    ensures final(out)@ == old(out)@ + full_boxed(box_type@, version, flags, content@),
{
    proof { reveal(full_boxed); }
    let mut inner: Vec<u8> = Vec::new();
    let vf: u32 = (version as u32) * 16777216 + flags % 16777216;
    push_be32(&mut inner, vf);
    push_bytes(&mut inner, content.as_slice());
    proof {
        reveal_with_fuel(crate::format::io::pow256, 5);
        assert(be(vf as int, 4) == be(version * 16777216 + flags % 16777216, 4));
        assert(inner@ =~= be(version * 16777216 + flags % 16777216, 4) + content@);
    }
    write_box(out, box_type, &inner);
}

fn push_matrix(out: &mut Vec<u8>)
    ensures final(out)@ == old(out)@ + matrix(),
{
    let ghost o = out@;
    push_be32(out, 0x00010000);
    push_be32(out, 0);
    push_be32(out, 0);
    push_be32(out, 0);
    push_be32(out, 0x00010000);
    push_be32(out, 0);
    push_be32(out, 0);
    push_be32(out, 0);
    push_be32(out, 0x40000000);
    assert(out@ =~= o + matrix());
}

fn codec_to_tag(id: CodecId) -> (r: Result<([u8; 4], bool)>)
    ensures
        mp4_tag(id) matches Some((t, a)) ==> (r matches Ok((rt, ra)) && rt@ == t && ra == a),
        mp4_tag(id) is None ==> (r matches Err(Error::Unsupported(_))),
{
    let r: Result<([u8; 4], bool)> = match id {
        CodecId::H264 => Ok(([0x61, 0x76, 0x63, 0x31], false)),
        CodecId::Hevc => Ok(([0x68, 0x65, 0x76, 0x31], false)),
        CodecId::Vp9 => Ok(([0x76, 0x70, 0x30, 0x39], false)),
        CodecId::Av1 => Ok(([0x61, 0x76, 0x30, 0x31], false)),
        CodecId::Aac => Ok(([0x6d, 0x70, 0x34, 0x61], true)),
        CodecId::Opus => Ok(([0x4f, 0x70, 0x75, 0x73], true)),
        CodecId::Flac => Ok(([0x66, 0x4c, 0x61, 0x43], true)),
        _ => {
            let mut m = String::from_str("MP4 doesn't support codec ");
            m.append(id.name());
            Err(Error::Unsupported(m))
        }
    };
    proof {
        match r {
            Ok((t, _)) => {
                let (tt, _a) = mp4_tag(id)->0;
                assert(t@ =~= tt);
            }
            _ => {}
        }
    }
    r
}

/// The sample entry type of a codec in MP4, and whether it is audio.
pub open spec fn mp4_tag(id: CodecId) -> Option<(Seq<u8>, bool)> {
    match id {
        CodecId::H264 => Some((fourcc(0x61, 0x76, 0x63, 0x31), false)),
        CodecId::Hevc => Some((fourcc(0x68, 0x65, 0x76, 0x31), false)),
        CodecId::Vp9 => Some((fourcc(0x76, 0x70, 0x30, 0x39), false)),
        CodecId::Av1 => Some((fourcc(0x61, 0x76, 0x30, 0x31), false)),
        CodecId::Aac => Some((fourcc(0x6d, 0x70, 0x34, 0x61), true)),
        CodecId::Opus => Some((fourcc(0x4f, 0x70, 0x75, 0x73), true)),
        CodecId::Flac => Some((fourcc(0x66, 0x4c, 0x61, 0x43), true)),
        _ => None,
    }
}

fn write_mvhd(out: &mut Vec<u8>, ntracks: usize)
    ensures final(out)@ == old(out)@ + mvhd_bytes(ntracks as nat),
{
    proof { reveal(mvhd_bytes); }
    let mut c: Vec<u8> = Vec::new();
    push_be32(&mut c, 0);
    push_be32(&mut c, 0);
    push_be32(&mut c, 1000);
    push_be32(&mut c, 0);
    push_be32(&mut c, 0x00010000);
    push_be16(&mut c, 0x0100);
    push_zeros(&mut c, 10);
    push_matrix(&mut c);
    push_zeros(&mut c, 24);
    let next: u32 = ((ntracks as u64 % 4294967296 + 1) % 4294967296) as u32;
    push_be32(&mut c, next);
    proof {
        reveal_with_fuel(crate::format::io::pow256, 5);
        let n = ntracks as int;
        assert((n % 4294967296 + 1) % 4294967296 == (n + 1) % 4294967296) by {
            vstd::arithmetic::div_mod::lemma_add_mod_noop(n, 1, 4294967296);
            vstd::arithmetic::div_mod::lemma_small_mod(1, 4294967296);
        }
        assert(be(next as int, 4) == be((ntracks + 1) as int, 4));
        assert(c@ =~= be(0, 4) + be(0, 4) + be(1000, 4) + be(0, 4) + be(0x10000, 4) + be(0x100, 2) + zeros(10)
            + matrix() + zeros(24) + be((ntracks + 1) as int, 4));
    }
    write_full_box(out, &[0x6d, 0x76, 0x68, 0x64], 0, 0, &c);
    proof { assert([0x6du8, 0x76, 0x68, 0x64]@ =~= fourcc(0x6d, 0x76, 0x68, 0x64)); }
}

fn write_tkhd(out: &mut Vec<u8>, idx: usize)
    ensures final(out)@ == old(out)@ + tkhd_bytes(idx as nat),
{
    proof { reveal(tkhd_bytes); }
    let mut c: Vec<u8> = Vec::new();
    push_be32(&mut c, 0);
    push_be32(&mut c, 0);
    let id: u32 = ((idx as u64 % 4294967296 + 1) % 4294967296) as u32;
    push_be32(&mut c, id);
    push_be32(&mut c, 0);
    push_be32(&mut c, 0);
    push_zeros(&mut c, 8);
    push_be16(&mut c, 0);
    push_be16(&mut c, 0);
    push_be16(&mut c, 0);
    push_be16(&mut c, 0);
    push_matrix(&mut c);
    push_be32(&mut c, 0);
    push_be32(&mut c, 0);
    proof {
        reveal_with_fuel(crate::format::io::pow256, 5);
        let n = idx as int;
        assert((n % 4294967296 + 1) % 4294967296 == (n + 1) % 4294967296) by {
            vstd::arithmetic::div_mod::lemma_add_mod_noop(n, 1, 4294967296);
            vstd::arithmetic::div_mod::lemma_small_mod(1, 4294967296);
        }
        assert(be(id as int, 4) == be((idx + 1) as int, 4));
        assert(c@ =~= be(0, 4) + be(0, 4) + be((idx + 1) as int, 4) + be(0, 4) + be(0, 4) + zeros(8) + be(0, 2) + be(0, 2)
            + be(0, 2) + be(0, 2) + matrix() + be(0, 4) + be(0, 4));
    }
    write_full_box(out, &[0x74, 0x6b, 0x68, 0x64], 0, 3, &c);
    proof { assert([0x74u8, 0x6b, 0x68, 0x64]@ =~= fourcc(0x74, 0x6b, 0x68, 0x64)); }
}

fn sum_sample_durations(samples: &Vec<SampleInfo>) -> (r: u64)
    ensures r == total_duration(samples@),
{
    let mut t: u64 = 0;
    let mut i: usize = 0;
    while i < samples.len()
        invariant i <= samples@.len(), t == total_duration(samples@.take(i as int)),
        decreases samples.len() - i,
    {
        assert(samples@.take(i + 1).drop_last() =~= samples@.take(i as int));
        t = t.wrapping_add(samples[i].duration as u64);
        i += 1;
    }
    assert(samples@.take(samples@.len() as int) =~= samples@);
    t
}

fn write_mdhd(out: &mut Vec<u8>, track: &TrackState)
    ensures final(out)@ == old(out)@ + mdhd_bytes(*track),
{
    proof { reveal(mdhd_bytes); }
    let duration = sum_sample_durations(&track.samples);
    let mut c: Vec<u8> = Vec::new();
    push_be32(&mut c, 0);
    push_be32(&mut c, 0);
    push_be32(&mut c, track.timescale);
    let d32: u32 = (duration % 4294967296) as u32;
    push_be32(&mut c, d32);
    push_be16(&mut c, 0x55C4);
    push_be16(&mut c, 0);
    proof {
        reveal_with_fuel(crate::format::io::pow256, 5);
        lemma_be_mod(total_duration(track.samples@) as int, 4);
        assert(be(d32 as int, 4) == be(total_duration(track.samples@) as int, 4));
        assert(c@ =~= be(0, 4) + be(0, 4) + be(track.timescale as int, 4) + be(total_duration(track.samples@) as int, 4)
            + be(0x55C4, 2) + be(0, 2));
    }
    write_full_box(out, &[0x6d, 0x64, 0x68, 0x64], 0, 0, &c);
    proof { assert([0x6du8, 0x64, 0x68, 0x64]@ =~= fourcc(0x6d, 0x64, 0x68, 0x64)); }
}

fn write_hdlr(out: &mut Vec<u8>, track: &TrackState)
    ensures final(out)@ == old(out)@ + hdlr_bytes(*track),
{
    proof { reveal(hdlr_bytes); }
    let mut c: Vec<u8> = Vec::new();
    push_be32(&mut c, 0);
    if track.is_audio {
        push_bytes(&mut c, &[0x73, 0x6f, 0x75, 0x6e]);
        proof { assert([0x73u8, 0x6f, 0x75, 0x6e]@ =~= fourcc(0x73, 0x6f, 0x75, 0x6e)); }
    } else {
        push_bytes(&mut c, &[0x76, 0x69, 0x64, 0x65]);
        proof { assert([0x76u8, 0x69, 0x64, 0x65]@ =~= fourcc(0x76, 0x69, 0x64, 0x65)); }
    }
    push_zeros(&mut c, 12);
    if track.is_audio {
        let name: [u8; 13] = [0x53, 0x6f, 0x75, 0x6e, 0x64, 0x48, 0x61, 0x6e, 0x64, 0x6c, 0x65, 0x72, 0];
        push_bytes(&mut c, &name);
        proof { assert(name@ =~= handler_name(true)); }
    } else {
        let name: [u8; 13] = [0x56, 0x69, 0x64, 0x65, 0x6f, 0x48, 0x61, 0x6e, 0x64, 0x6c, 0x65, 0x72, 0];
        push_bytes(&mut c, &name);
        proof { assert(name@ =~= handler_name(false)); }
    }
    proof {
        assert(c@ =~= be(0, 4) + (if track.is_audio { fourcc(0x73, 0x6f, 0x75, 0x6e) } else { fourcc(0x76, 0x69, 0x64, 0x65) })
            + zeros(12) + handler_name(track.is_audio));
    }
    write_full_box(out, &[0x68, 0x64, 0x6c, 0x72], 0, 0, &c);
    proof { assert([0x68u8, 0x64, 0x6c, 0x72]@ =~= fourcc(0x68, 0x64, 0x6c, 0x72)); }
}

fn write_stsd(out: &mut Vec<u8>, track: &TrackState)
    ensures final(out)@ == old(out)@ + stsd_bytes(*track),
{
    proof { reveal(stsd_bytes); }
    let mut c: Vec<u8> = Vec::new();
    push_be32(&mut c, 1);
    let entry_size: u32 = if track.is_audio { 8 + 8 + 20 } else { 8 + 8 + 70 };
    push_be32(&mut c, entry_size);
    push_bytes(&mut c, &track.codec_tag);
    push_zeros(&mut c, 6);
    push_be16(&mut c, 1);
    let ghost head = c@;
    if track.is_audio {
        push_zeros(&mut c, 8);
        push_be16(&mut c, 2);
        push_be16(&mut c, 16);
        push_be32(&mut c, 0);
        let rate: u32 = ((track.timescale as u64 * 65536) % 4294967296) as u32;
        push_be32(&mut c, rate);
        proof {
            reveal_with_fuel(crate::format::io::pow256, 5);
            lemma_be_mod(track.timescale * 65536, 4);
            assert(be(rate as int, 4) == be(track.timescale * 65536, 4));
            assert(c@ =~= head + (zeros(8) + be(2, 2) + be(16, 2) + be(0, 4) + be(track.timescale * 65536, 4)));
        }
    } else {
        push_zeros(&mut c, 16);
        push_be16(&mut c, 1920);
        push_be16(&mut c, 1080);
        push_be32(&mut c, 0x00480000);
        push_be32(&mut c, 0x00480000);
        push_be32(&mut c, 0);
        push_be16(&mut c, 1);
        push_zeros(&mut c, 32);
        push_be16(&mut c, 0x0018);
        push_be16(&mut c, 0xFFFF);
        proof {
            assert(c@ =~= head + (zeros(16) + be(1920, 2) + be(1080, 2) + be(0x480000, 4) + be(0x480000, 4) + be(0, 4)
                + be(1, 2) + zeros(32) + be(0x18, 2) + be(0xFFFF, 2)));
        }
    }
    proof {
        assert(c@ =~= be(1, 4) + be(if track.is_audio { 36 } else { 86 }, 4) + track.codec_tag@ + zeros(6) + be(1, 2)
            + if track.is_audio {
                zeros(8) + be(2, 2) + be(16, 2) + be(0, 4) + be(track.timescale * 65536, 4)
            } else {
                zeros(16) + be(1920, 2) + be(1080, 2) + be(0x480000, 4) + be(0x480000, 4) + be(0, 4)
                    + be(1, 2) + zeros(32) + be(0x18, 2) + be(0xFFFF, 2)
            });
    }
    write_full_box(out, &[0x73, 0x74, 0x73, 0x64], 0, 0, &c);
    proof { assert([0x73u8, 0x74, 0x73, 0x64]@ =~= fourcc(0x73, 0x74, 0x73, 0x64)); }
}

/// Runs of equal durations (see [`duration_runs`]).
pub fn rle_durations(samples: &Vec<SampleInfo>) -> (r: Vec<(u32, u32)>)
    ensures r@ == duration_runs(samples@),
{
    let mut runs: Vec<(u32, u32)> = Vec::new();
    let mut i: usize = 0;
    while i < samples.len()
        invariant i <= samples@.len(), runs@ == duration_runs(samples@.take(i as int)),
        decreases samples.len() - i,
    {
        let d = samples[i].duration;
        let ghost t = samples@.take(i + 1);
        assert(t.drop_last() =~= samples@.take(i as int));
        let n = runs.len();
        if n > 0 && runs[n - 1].1 == d {
            let (count, delta) = runs[n - 1];
            runs.set(n - 1, (count.wrapping_add(1), delta));
            proof {
                assert(runs@ =~= duration_runs(samples@.take(i as int)).drop_last().push(
                    (((count + 1) % 4294967296) as u32, delta)));
            }
        } else {
            runs.push((1, d));
        }
        i += 1;
    }
    assert(samples@.take(samples@.len() as int) =~= samples@);
    runs
}

fn write_stts(out: &mut Vec<u8>, track: &TrackState)
    ensures final(out)@ == old(out)@ + stts_bytes(*track),
{
    proof { reveal(stts_bytes); }
    let runs = rle_durations(&track.samples);
    let mut c: Vec<u8> = Vec::new();
    let n32: u32 = (runs.len() as u64 % 4294967296) as u32;
    push_be32(&mut c, n32);
    let ghost head = c@;
    let mut i: usize = 0;
    while i < runs.len()
        invariant i <= runs@.len(), c@ == head + runs_bytes(runs@.take(i as int)),
        decreases runs.len() - i,
    {
        assert(runs@.take(i + 1).drop_last() =~= runs@.take(i as int));
        push_be32(&mut c, runs[i].0);
        push_be32(&mut c, runs[i].1);
        i += 1;
    }
    proof {
        reveal_with_fuel(crate::format::io::pow256, 5);
        assert(runs@.take(runs@.len() as int) =~= runs@);
        lemma_be_mod(runs@.len() as int, 4);
        assert(be(n32 as int, 4) == be(runs@.len() as int, 4));
        assert(c@ =~= be(runs@.len() as int, 4) + runs_bytes(runs@));
    }
    write_full_box(out, &[0x73, 0x74, 0x74, 0x73], 0, 0, &c);
    proof { assert([0x73u8, 0x74, 0x74, 0x73]@ =~= fourcc(0x73, 0x74, 0x74, 0x73)); }
}

fn write_stsz(out: &mut Vec<u8>, track: &TrackState)
    ensures final(out)@ == old(out)@ + stsz_bytes(*track),
{
    proof { reveal(stsz_bytes); }
    let mut c: Vec<u8> = Vec::new();
    push_be32(&mut c, 0);
    let n32: u32 = (track.samples.len() as u64 % 4294967296) as u32;
    push_be32(&mut c, n32);
    let ghost head = c@;
    let mut i: usize = 0;
    while i < track.samples.len()
        invariant i <= track.samples@.len(), c@ == head + sizes_bytes(track.samples@.take(i as int)),
        decreases track.samples.len() - i,
    {
        assert(track.samples@.take(i + 1).drop_last() =~= track.samples@.take(i as int));
        push_be32(&mut c, track.samples[i].size);
        i += 1;
    }
    proof {
        reveal_with_fuel(crate::format::io::pow256, 5);
        assert(track.samples@.take(track.samples@.len() as int) =~= track.samples@);
        lemma_be_mod(track.samples@.len() as int, 4);
        assert(be(n32 as int, 4) == be(track.samples@.len() as int, 4));
        assert(c@ =~= be(0, 4) + be(track.samples@.len() as int, 4) + sizes_bytes(track.samples@));
    }
    write_full_box(out, &[0x73, 0x74, 0x73, 0x7a], 0, 0, &c);
    proof { assert([0x73u8, 0x74, 0x73, 0x7a]@ =~= fourcc(0x73, 0x74, 0x73, 0x7a)); }
}

fn write_stsc(out: &mut Vec<u8>)
    ensures final(out)@ == old(out)@ + stsc_bytes(),
{
    proof { reveal(stsc_bytes); }
    let mut c: Vec<u8> = Vec::new();
    push_be32(&mut c, 1);
    push_be32(&mut c, 1);
    push_be32(&mut c, 1);
    push_be32(&mut c, 1);
    assert(c@ =~= be(1, 4) + be(1, 4) + be(1, 4) + be(1, 4));
    write_full_box(out, &[0x73, 0x74, 0x73, 0x63], 0, 0, &c);
    proof { assert([0x73u8, 0x74, 0x73, 0x63]@ =~= fourcc(0x73, 0x74, 0x73, 0x63)); }
}

fn write_stco(out: &mut Vec<u8>, track: &TrackState)
    ensures final(out)@ == old(out)@ + stco_bytes(*track),
{
    proof { reveal(stco_bytes); }
    let mut needs = false;
    let mut k: usize = 0;
    while k < track.samples.len()
        invariant k <= track.samples@.len(),
            needs == exists|i: int| 0 <= i < k && track.samples@[i].offset > u32::MAX,
        decreases track.samples.len() - k,
    {
        if track.samples[k].offset > 4294967295 {
            needs = true;
        }
        k += 1;
    }
    let width: usize = if needs { 8 } else { 4 };
    let mut c: Vec<u8> = Vec::new();
    let n32: u32 = (track.samples.len() as u64 % 4294967296) as u32;
    push_be32(&mut c, n32);
    let ghost head = c@;
    let mut i: usize = 0;
    while i < track.samples.len()
        invariant
            i <= track.samples@.len(), width == (if needs { 8usize } else { 4usize }),
            needs == needs_64bit(track.samples@),
            c@ == head + offsets_bytes(track.samples@.take(i as int), width as nat),
        decreases track.samples.len() - i,
    {
        assert(track.samples@.take(i + 1).drop_last() =~= track.samples@.take(i as int));
        let off = track.samples[i].offset;
        if needs {
            proof { reveal_with_fuel(crate::format::io::pow256, 9); }
            push_be(&mut c, off, 8);
        } else {
            proof { reveal_with_fuel(crate::format::io::pow256, 5); }
            push_be32(&mut c, off as u32);
        }
        i += 1;
    }
    proof {
        reveal_with_fuel(crate::format::io::pow256, 5);
        assert(track.samples@.take(track.samples@.len() as int) =~= track.samples@);
        lemma_be_mod(track.samples@.len() as int, 4);
        assert(be(n32 as int, 4) == be(track.samples@.len() as int, 4));
    }
    if needs {
        write_full_box(out, &[0x63, 0x6f, 0x36, 0x34], 0, 0, &c);
        proof { assert([0x63u8, 0x6f, 0x36, 0x34]@ =~= fourcc(0x63, 0x6f, 0x36, 0x34)); }
    } else {
        write_full_box(out, &[0x73, 0x74, 0x63, 0x6f], 0, 0, &c);
        proof { assert([0x73u8, 0x74, 0x63, 0x6f]@ =~= fourcc(0x73, 0x74, 0x63, 0x6f)); }
    }
}

fn write_stss(out: &mut Vec<u8>, track: &TrackState)
    ensures final(out)@ == old(out)@ + stss_bytes(*track),
{
    proof { reveal(stss_bytes); }
    let mut syncs: Vec<u32> = Vec::new();
    let mut i: usize = 0;
    while i < track.samples.len()
        invariant i <= track.samples@.len(), syncs@ == sync_numbers(track.samples@, i as int),
        decreases track.samples.len() - i,
    {
        if track.samples[i].is_sync {
            syncs.push(((i as u64 + 1) % 4294967296) as u32);
        }
        i += 1;
    }
    if syncs.len() == track.samples.len() {
        return;
    }
    let mut c: Vec<u8> = Vec::new();
    let n32: u32 = (syncs.len() as u64 % 4294967296) as u32;
    push_be32(&mut c, n32);
    let ghost head = c@;
    let mut k: usize = 0;
    while k < syncs.len()
        invariant k <= syncs@.len(), c@ == head + u32s_bytes(syncs@.take(k as int)),
        decreases syncs.len() - k,
    {
        assert(syncs@.take(k + 1).drop_last() =~= syncs@.take(k as int));
        push_be32(&mut c, syncs[k]);
        k += 1;
    }
    proof {
        reveal_with_fuel(crate::format::io::pow256, 5);
        assert(syncs@.take(syncs@.len() as int) =~= syncs@);
        lemma_be_mod(syncs@.len() as int, 4);
        assert(be(n32 as int, 4) == be(syncs@.len() as int, 4));
    }
    write_full_box(out, &[0x73, 0x74, 0x73, 0x73], 0, 0, &c);
    proof { assert([0x73u8, 0x74, 0x73, 0x73]@ =~= fourcc(0x73, 0x74, 0x73, 0x73)); }
}

fn write_trak(out: &mut Vec<u8>, idx: usize, track: &TrackState)
    ensures final(out)@ == old(out)@ + trak_bytes(idx as nat, *track),
{
    proof { reveal(trak_bytes); }
    let mut url: Vec<u8> = Vec::new();
    let empty: Vec<u8> = Vec::new();
    write_full_box(&mut url, &[0x75, 0x72, 0x6c, 0x20], 0, 1, &empty);
    let mut dref_c: Vec<u8> = Vec::new();
    push_be32(&mut dref_c, 1);
    push_bytes(&mut dref_c, url.as_slice());
    let mut dinf_c: Vec<u8> = Vec::new();
    write_full_box(&mut dinf_c, &[0x64, 0x72, 0x65, 0x66], 0, 0, &dref_c);
    let mut stbl_c: Vec<u8> = Vec::new();
    write_stsd(&mut stbl_c, track);
    write_stts(&mut stbl_c, track);
    write_stsz(&mut stbl_c, track);
    write_stsc(&mut stbl_c);
    write_stco(&mut stbl_c, track);
    write_stss(&mut stbl_c, track);
    let mut minf_c: Vec<u8> = Vec::new();
    write_box(&mut minf_c, &[0x64, 0x69, 0x6e, 0x66], &dinf_c);
    write_box(&mut minf_c, &[0x73, 0x74, 0x62, 0x6c], &stbl_c);
    let mut mdia_c: Vec<u8> = Vec::new();
    write_mdhd(&mut mdia_c, track);
    write_hdlr(&mut mdia_c, track);
    write_box(&mut mdia_c, &[0x6d, 0x69, 0x6e, 0x66], &minf_c);
    let mut trak_c: Vec<u8> = Vec::new();
    write_tkhd(&mut trak_c, idx);
    write_box(&mut trak_c, &[0x6d, 0x64, 0x69, 0x61], &mdia_c);
    write_box(out, &[0x74, 0x72, 0x61, 0x6b], &trak_c);
    proof {
        assert([0x75u8, 0x72, 0x6c, 0x20]@ =~= fourcc(0x75, 0x72, 0x6c, 0x20));
        assert([0x64u8, 0x72, 0x65, 0x66]@ =~= fourcc(0x64, 0x72, 0x65, 0x66));
        assert([0x64u8, 0x69, 0x6e, 0x66]@ =~= fourcc(0x64, 0x69, 0x6e, 0x66));
        assert([0x73u8, 0x74, 0x62, 0x6c]@ =~= fourcc(0x73, 0x74, 0x62, 0x6c));
        assert([0x6du8, 0x69, 0x6e, 0x66]@ =~= fourcc(0x6d, 0x69, 0x6e, 0x66));
        assert([0x6du8, 0x64, 0x69, 0x61]@ =~= fourcc(0x6d, 0x64, 0x69, 0x61));
        assert([0x74u8, 0x72, 0x61, 0x6b]@ =~= fourcc(0x74, 0x72, 0x61, 0x6b));
        assert(empty@ =~= Seq::<u8>::empty());
        assert(url@ =~= full_boxed(fourcc(0x75, 0x72, 0x6c, 0x20), 0, 1, Seq::empty()));
        assert(dref_c@ =~= be(1, 4) + full_boxed(fourcc(0x75, 0x72, 0x6c, 0x20), 0, 1, Seq::empty()));
        assert(stbl_c@ =~= stsd_bytes(*track) + stts_bytes(*track) + stsz_bytes(*track) + stsc_bytes()
            + stco_bytes(*track) + stss_bytes(*track));
        assert(trak_c@ =~= tkhd_bytes(idx as nat) + boxed(fourcc(0x6d, 0x64, 0x69, 0x61), mdia_c@));
    }
}

fn write_moov(out: &mut Vec<u8>, tracks: &Vec<TrackState>)
    ensures final(out)@ == old(out)@ + moov_bytes(tracks@),
{
    let mut c: Vec<u8> = Vec::new();
    write_mvhd(&mut c, tracks.len());
    let ghost head = c@;
    let mut i: usize = 0;
    while i < tracks.len()
        invariant i <= tracks@.len(), c@ == head + traks_bytes(tracks@, i as int),
        decreases tracks.len() - i,
    {
        write_trak(&mut c, i, &tracks[i]);
        i += 1;
        assert(c@ =~= head + traks_bytes(tracks@, i as int));
    }
    write_box(out, &[0x6d, 0x6f, 0x6f, 0x76], &c);
    proof { assert([0x6du8, 0x6f, 0x6f, 0x76]@ =~= fourcc(0x6d, 0x6f, 0x6f, 0x76)); }
}

/// The time scale of a stream's track: the sample rate (at least 1) for
/// audio, else the time base's denominator when positive, else 90000.
pub open spec fn track_timescale(st: Stream, is_audio: bool) -> u32 {
    if is_audio {
        if st.params.sample_rate > 1 { st.params.sample_rate } else { 1 }
    } else if st.time_base.den > 0 {
        st.time_base.den as u32
    } else {
        90000
    }
}

/// Whether MP4 can hold every stream.
pub open spec fn all_supported(streams: Seq<Stream>) -> bool {
    forall|i: int| 0 <= i < streams.len() ==> #[trigger] mp4_tag(streams[i].params.codec_id) is Some
}

/// `t` is the fresh track state of stream `st`.
pub open spec fn track_for(t: TrackState, st: Stream) -> bool {
    &&& mp4_tag(st.params.codec_id) matches Some((tag, a)) && t.codec_tag@ == tag && t.is_audio == a
    &&& t.timescale == track_timescale(st, t.is_audio)
    &&& t.samples@.len() == 0
}

/// What the header writes: the `ftyp` box and an `mdat` header of size 0.
pub open spec fn mp4_header_bytes() -> Seq<u8> {
    ftyp_bytes() + be(0, 4) + fourcc(0x6d, 0x64, 0x61, 0x74)
}

/// Writer of MP4 files: the samples go into one `mdat` box, the sample
/// tables into a `moov` box at the end.
pub struct Mp4Muxer {
    tracks: Vec<TrackState>,
    mdat_offset: u64,
    mdat_size: u64,
}

impl Mp4Muxer {
    /// The tracks, one per stream.
    pub closed spec fn spec_tracks(&self) -> Seq<TrackState> { self.tracks@ }
    /// Where the `mdat` box starts.
    pub closed spec fn spec_mdat_offset(&self) -> u64 { self.mdat_offset }
    /// Bytes of samples written (modulo 2^64).
    pub closed spec fn spec_mdat_size(&self) -> u64 { self.mdat_size }

    /// A muxer with no tracks.
    pub fn new() -> (r: Self)
        ensures r.spec_tracks().len() == 0, r.spec_mdat_offset() == 0, r.spec_mdat_size() == 0,
    {
        Mp4Muxer { tracks: Vec::new(), mdat_offset: 0, mdat_size: 0 }
    }
}

impl Default for Mp4Muxer {
    fn default() -> (r: Self)
        ensures r.spec_tracks().len() == 0, r.spec_mdat_offset() == 0, r.spec_mdat_size() == 0,
    {
        Self::new()
    }
}

fn header_bytes() -> (r: Vec<u8>)
    ensures r@ == mp4_header_bytes(), r@.len() == 36,
{
    let mut c: Vec<u8> = Vec::new();
    push_bytes(&mut c, &[0x69, 0x73, 0x6f, 0x6d]);
    push_be32(&mut c, 0x200);
    push_bytes(&mut c, &[0x69, 0x73, 0x6f, 0x6d, 0x69, 0x73, 0x6f, 0x32, 0x6d, 0x70, 0x34, 0x31]);
    let mut out: Vec<u8> = Vec::new();
    write_box(&mut out, &[0x66, 0x74, 0x79, 0x70], &c);
    push_be32(&mut out, 0);
    push_bytes(&mut out, &[0x6d, 0x64, 0x61, 0x74]);
    proof {
        reveal(boxed);
        reveal_with_fuel(crate::format::io::pow256, 5);
        lemma_be_len(28, 4);
        lemma_be_len(0, 4);
        lemma_be_len(0x200, 4);
        assert([0x66u8, 0x74, 0x79, 0x70]@ =~= fourcc(0x66, 0x74, 0x79, 0x70));
        assert([0x6du8, 0x64, 0x61, 0x74]@ =~= fourcc(0x6d, 0x64, 0x61, 0x74));
        assert(c@ =~= fourcc(0x69, 0x73, 0x6f, 0x6d) + be(0x200, 4)
            + fourcc(0x69, 0x73, 0x6f, 0x6d) + fourcc(0x69, 0x73, 0x6f, 0x32) + fourcc(0x6d, 0x70, 0x34, 0x31));
        assert(out@ =~= mp4_header_bytes());
    }
    out
}

impl Muxer for Mp4Muxer {
    fn name(&self) -> (r: &'static str)
        ensures r@ == "mp4"@,
    {
        "mp4"
    }

    /// Makes a track per stream and writes the `ftyp` box and the start of
    /// the `mdat` box.
    fn write_header(&mut self, io: &mut IOContext, streams: &[Stream]) -> (r: Result<()>)
        ensures
            streams@.len() == 0 ==> (r matches Err(Error::InvalidArgument(_))),
            streams@.len() > 0 && !all_supported(streams@) ==> (r matches Err(Error::Unsupported(_))),
            streams@.len() == 0 || !all_supported(streams@) ==> *final(io) == *old(io),
            streams@.len() > 0 && all_supported(streams@) ==> ({
                &&& final(self).spec_tracks().len() == old(self).spec_tracks().len() + streams@.len()
                &&& forall|i: int| 0 <= i < old(self).spec_tracks().len() ==> #[trigger] final(self).spec_tracks()[i] == old(self).spec_tracks()[i]
                &&& forall|i: int| 0 <= i < streams@.len() ==> #[trigger] track_for(final(self).spec_tracks()[old(self).spec_tracks().len() + i], streams@[i])
                &&& old(io).spec_pos() + 36 <= usize::MAX ==> r is Ok
                    && final(io).spec_data() == write_at(old(io).spec_data(), old(io).spec_pos() as nat, mp4_header_bytes())
                    && final(io).spec_pos() == old(io).spec_pos() + 36
                    && final(self).spec_mdat_offset() == old(io).spec_pos() + 28
                    && final(self).spec_mdat_size() == 0
                &&& old(io).spec_pos() + 36 > usize::MAX ==> (r matches Err(Error::InvalidArgument(_)))
            }),
            final(io).spec_seekable() == old(io).spec_seekable(),
            final(io).spec_size() == old(io).spec_size(),
    {
        if streams.len() == 0 {
            return Err(Error::InvalidArgument(msg("no streams")));
        }
        let mut i: usize = 0;
        while i < streams.len()
            invariant
                i <= streams@.len(), *io == *old(io),
                self.tracks@.len() == old(self).tracks@.len() + i,
                forall|k: int| 0 <= k < old(self).tracks@.len() ==> #[trigger] self.tracks@[k] == old(self).tracks@[k],
                forall|k: int| 0 <= k < i ==> #[trigger] track_for(self.tracks@[old(self).tracks@.len() + k], streams@[k]),
                forall|k: int| 0 <= k < i ==> #[trigger] mp4_tag(streams@[k].params.codec_id) is Some,
            decreases streams.len() - i,
        {
            let stream = &streams[i];
            let (tag, is_audio) = match codec_to_tag(stream.params.codec_id) {
                Ok(x) => x,
                Err(e) => {
                    proof { assert(!all_supported(streams@)); }
                    return Err(e);
                }
            };
            let timescale = if is_audio {
                if stream.params.sample_rate > 1 { stream.params.sample_rate } else { 1 }
            } else if stream.time_base.den > 0 {
                stream.time_base.den as u32
            } else {
                90000
            };
            let ghost before = self.tracks@;
            self.tracks.push(TrackState { timescale, samples: Vec::new(), codec_tag: tag, is_audio });
            proof {
                assert forall|k: int| 0 <= k < i + 1 implies #[trigger] track_for(self.tracks@[old(self).tracks@.len() + k], streams@[k]) by {
                    if k < i { assert(self.tracks@[old(self).tracks@.len() + k] == before[old(self).tracks@.len() + k]); }
                }
                assert forall|k: int| 0 <= k < old(self).tracks@.len() implies #[trigger] self.tracks@[k] == old(self).tracks@[k] by {
                    assert(self.tracks@[k] == before[k]);
                }
            }
            i += 1;
        }
        let bytes = header_bytes();
        io.write_all(bytes.as_slice())?;
        self.mdat_offset = io.position()? - 8;
        self.mdat_size = 0;
        Ok(())
    }

    /// Appends the packet's bytes to the `mdat` box and records the sample
    /// for its stream's track.
    fn write_packet(&mut self, io: &mut IOContext, packet: &Packet) -> (r: Result<()>)
        ensures
            packet.stream_index >= old(self).spec_tracks().len() ==> (r matches Err(Error::InvalidArgument(_)))
                && *final(io) == *old(io) && *final(self) == *old(self),
            packet.stream_index < old(self).spec_tracks().len() ==> ({
                let k = packet.stream_index as int;
                let t = old(self).spec_tracks()[k];
                &&& old(io).spec_pos() + packet.data@.len() <= usize::MAX ==> r is Ok
                    && final(io).spec_data() == write_at(old(io).spec_data(), old(io).spec_pos() as nat, packet.data@)
                    && final(io).spec_pos() == old(io).spec_pos() + packet.data@.len()
                    && final(self).spec_tracks().len() == old(self).spec_tracks().len()
                    && (forall|j: int| 0 <= j < old(self).spec_tracks().len() && j != k
                        ==> #[trigger] final(self).spec_tracks()[j] == old(self).spec_tracks()[j])
                    && final(self).spec_tracks()[k].timescale == t.timescale
                    && final(self).spec_tracks()[k].codec_tag == t.codec_tag
                    && final(self).spec_tracks()[k].is_audio == t.is_audio
                    && final(self).spec_tracks()[k].samples@ == t.samples@.push(SampleInfo {
                        offset: old(io).spec_pos(),
                        size: (packet.data@.len() % 4294967296) as u32,
                        duration: match packet.duration { Some(d) => d as u32, None => 1u32 },
                        is_sync: packet.flags.keyframe,
                    })
                    && final(self).spec_mdat_size() == (old(self).spec_mdat_size() + packet.data@.len()) % 18446744073709551616
                &&& old(io).spec_pos() + packet.data@.len() > usize::MAX ==> (r matches Err(Error::InvalidArgument(_)))
                    && *final(io) == *old(io) && *final(self) == *old(self)
            }),
            final(self).spec_mdat_offset() == old(self).spec_mdat_offset(),
            final(io).spec_seekable() == old(io).spec_seekable(),
            final(io).spec_size() == old(io).spec_size(),
    {
        let track_idx = packet.stream_index as usize;
        if track_idx >= self.tracks.len() {
            return Err(Error::InvalidArgument(msg("stream index out of range")));
        }
        let offset = io.position()?;
        let data = packet.data.data();
        io.write_all(data)?;
        let duration: u32 = match packet.duration {
            Some(d) => #[verifier::truncate] (d as u32),
            None => 1,
        };
        let info = SampleInfo {
            offset,
            size: (data.len() as u64 % 4294967296) as u32,
            duration,
            is_sync: packet.flags.keyframe,
        };
        let slot = crate::util::frame::vec_index_mut(&mut self.tracks, track_idx);
        slot.samples.push(info);
        self.mdat_size = self.mdat_size.wrapping_add(data.len() as u64);
        Ok(())
    }

    /// Patches the `mdat` size (32 bits) and writes the `moov` box after the
    /// samples.
    fn write_trailer(&mut self, io: &mut IOContext) -> (r: Result<()>)
        ensures
            !old(io).spec_seekable() ==> (r matches Err(Error::Unsupported(_))) && *final(io) == *old(io),
            old(io).spec_seekable() && old(self).spec_mdat_offset() + 4 <= usize::MAX
                && old(io).spec_pos() + moov_bytes(old(self).spec_tracks()).len() <= usize::MAX ==> ({
                let end = old(io).spec_pos();
                let total = if end >= old(self).spec_mdat_offset() { end - old(self).spec_mdat_offset() }
                    else { end - old(self).spec_mdat_offset() + 18446744073709551616 };
                let patched = write_at(old(io).spec_data(), old(self).spec_mdat_offset() as nat, be(total, 4));
                &&& r is Ok
                &&& final(io).spec_data() == write_at(patched, end as nat, moov_bytes(old(self).spec_tracks()))
                &&& final(io).spec_pos() == end + moov_bytes(old(self).spec_tracks()).len()
            }),
            final(io).spec_seekable() == old(io).spec_seekable(),
            final(io).spec_size() == old(io).spec_size(),
            *final(self) == *old(self),
    {
        let mdat_end = io.position()?;
        let mdat_total = mdat_end.wrapping_sub(self.mdat_offset);
        io.seek(self.mdat_offset)?;
        io.write_u32_be((mdat_total % 4294967296) as u32)?;
        proof {
            reveal_with_fuel(crate::format::io::pow256, 5);
            lemma_be_mod(mdat_total as int, 4);
        }
        io.seek(mdat_end)?;
        let mut moov: Vec<u8> = Vec::new();
        write_moov(&mut moov, &self.tracks);
        io.write_all(moov.as_slice())?;
        Ok(())
    }
}


/// The sample sizes the muxer's `stsz` box lists.
pub open spec fn written_sizes(s: Seq<SampleInfo>) -> Seq<u32> {
    Seq::new(s.len(), |i: int| s[i].size)
}

/// The chunk offsets the muxer's `stco` or `co64` box lists: one chunk per
/// sample.
pub open spec fn written_offsets(s: Seq<SampleInfo>) -> Seq<u64> {
    Seq::new(s.len(), |i: int| s[i].offset)
}

/// The sync table the muxer's `stss` box holds, absent when every sample
/// is a sync sample.
pub open spec fn written_sync(s: Seq<SampleInfo>) -> Option<Seq<u32>> {
    let v = sync_numbers(s, s.len() as int);
    if v.len() == s.len() { None } else { Some(v) }
}

proof fn lemma_expand_push(r: Seq<(u32, u32)>, x: (u32, u32))
    ensures expand_runs(r.push(x)) == expand_runs(r) + Seq::new(x.0 as nat, |_j: int| x.1),
    decreases r.len(),
{
    if r.len() == 0 {
        assert(r.push(x).drop_first() =~= Seq::<(u32, u32)>::empty());
        assert(expand_runs(Seq::<(u32, u32)>::empty()) == Seq::<u32>::empty());
        assert(expand_runs(r.push(x)) =~= Seq::new(x.0 as nat, |_j: int| x.1));
    } else {
        assert(r.push(x).drop_first() =~= r.drop_first().push(x));
        lemma_expand_push(r.drop_first(), x);
        assert(expand_runs(r.push(x)) =~= expand_runs(r) + Seq::new(x.0 as nat, |_j: int| x.1));
    }
}

/// The runs of equal durations expand back to the samples' durations.
proof fn lemma_runs_expand(s: Seq<SampleInfo>)
    requires s.len() < 4294967296,
    ensures expand_runs(duration_runs(s)) == Seq::new(s.len(), |i: int| s[i].duration),
        duration_runs(s).len() > 0 ==> duration_runs(s).last().0 <= s.len(),
    decreases s.len(),
{
    if s.len() == 0 {
        assert(expand_runs(duration_runs(s)) =~= Seq::new(s.len(), |i: int| s[i].duration));
    } else {
        let t = s.drop_last();
        let r = duration_runs(t);
        lemma_runs_expand(t);
        let d = s.last().duration;
        if r.len() > 0 && r.last().1 == d {
            let c = r.last().0;
            let r0 = r.drop_last();
            assert(r =~= r0.push(r.last()));
            lemma_expand_push(r0, r.last());
            lemma_expand_push(r0, (((c + 1) % 4294967296) as u32, d));
            assert(expand_runs(r) == expand_runs(r0) + Seq::new(c as nat, |_j: int| r.last().1));
            assert(expand_runs(r).len() == t.len());
            assert(expand_runs(r0).len() + c == t.len());
            assert(((c + 1) % 4294967296) as u32 == c + 1);
            let e0 = expand_runs(r0);
            let lhs = e0 + Seq::new((c + 1) as nat, |_j: int| d);
            assert(duration_runs(s) == r0.push((((c + 1) % 4294967296) as u32, d)));
            assert(expand_runs(duration_runs(s)) == lhs);
            assert(expand_runs(r) == e0 + Seq::new(c as nat, |_j: int| d));
            assert forall|j: int| 0 <= j < s.len() implies lhs[j] == s[j].duration by {
                if j < t.len() {
                    assert(expand_runs(r)[j] == t[j].duration);
                    if j < e0.len() {
                        assert(lhs[j] == e0[j]);
                    } else {
                        assert(lhs[j] == d);
                    }
                } else {
                    assert(lhs[j] == d);
                }
            }
            assert(expand_runs(duration_runs(s)) =~= Seq::new(s.len(), |i: int| s[i].duration));
        } else {
            lemma_expand_push(r, (1u32, d));
            assert(expand_runs(duration_runs(s)) =~= Seq::new(s.len(), |i: int| s[i].duration));
        }
    }
}

/// The sync numbers among the first `k` samples name exactly the sync
/// samples, and all `k` are named only when each is a sync sample.
proof fn lemma_sync_numbers(s: Seq<SampleInfo>, k: int)
    requires 0 <= k <= s.len() < 4294967296,
    ensures
        forall|j: int| 0 <= j < k ==> (sync_numbers(s, k).contains(((j + 1) % 4294967296) as u32) <==> s[j].is_sync),
        forall|x: u32| #[trigger] sync_numbers(s, k).contains(x) ==> 1 <= x <= k,
        sync_numbers(s, k).len() <= k,
        sync_numbers(s, k).len() == k ==> forall|j: int| 0 <= j < k ==> #[trigger] s[j].is_sync,
    decreases k,
{
    if k > 0 {
        lemma_sync_numbers(s, k - 1);
        let v = sync_numbers(s, k - 1);
        if s[k - 1].is_sync {
            assert(sync_numbers(s, k) == v.push((k % 4294967296) as u32));
            assert forall|j: int| 0 <= j < k implies (sync_numbers(s, k).contains(((j + 1) % 4294967296) as u32)
                <==> s[j].is_sync) by {
                if j < k - 1 {
                    if v.push((k % 4294967296) as u32).contains(((j + 1) % 4294967296) as u32) && !v.contains(((j + 1) % 4294967296) as u32) {
                        assert(((j + 1) % 4294967296) as u32 == (k % 4294967296) as u32);
                    }
                    if v.contains(((j + 1) % 4294967296) as u32) {
                        let w = choose|w: int| 0 <= w < v.len() && #[trigger] v[w] == ((j + 1) % 4294967296) as u32;
                        assert(v.push((k % 4294967296) as u32)[w] == v[w]);
                    }
                } else {
                    assert(v.push((k % 4294967296) as u32)[v.len() as int] == (k % 4294967296) as u32);
                }
            }
            assert forall|x: u32| #[trigger] sync_numbers(s, k).contains(x) implies 1 <= x <= k by {
                let vp = v.push((k % 4294967296) as u32);
                let w = choose|w: int| 0 <= w < vp.len() && #[trigger] vp[w] == x;
                if w < v.len() { assert(v.contains(x)); }
            }
        } else {
            assert(sync_numbers(s, k) == v);
            assert forall|j: int| 0 <= j < k implies (sync_numbers(s, k).contains(((j + 1) % 4294967296) as u32)
                <==> s[j].is_sync) by {
                if j == k - 1 {
                    if v.contains((k % 4294967296) as u32) {
                        assert(((k % 4294967296) as u32) <= k - 1);
                    }
                }
            }
        }
    }
}

/// With one sample per chunk, sample `c` is the first of chunk `c`.
proof fn lemma_one_per_chunk(k: nat)
    ensures chunk_runs(seq![(1u32, 1u32)], k) == Seq::new(k, |c: int| (c, 0int)),
    decreases k,
{
    if k > 0 {
        lemma_one_per_chunk((k - 1) as nat);
        let tab = seq![(1u32, 1u32)];
        assert(spc_for(tab, chunk_number(k - 1)) == 1) by {
            reveal_with_fuel(spc_for, 2);
            assert(tab.drop_last().len() == 0);
        }
        assert(chunk_runs(tab, k) =~= Seq::new(k, |c: int| (c, 0int)));
    }
}

/// The tables the muxer writes for a track's samples, read back as the
/// demuxer builds its sample table, give each sample's offset, size,
/// duration and sync flag.
pub proof fn law_sample_table_roundtrip(s: Seq<SampleInfo>, i: int)
    requires 0 <= i < s.len() < 4294967296,
    ensures
        sample_at(written_sizes(s), written_offsets(s), duration_runs(s), seq![(1u32, 1u32)], written_sync(s), i)
            == (SampleEntry { offset: s[i].offset, size: s[i].size, duration: s[i].duration, is_sync: s[i].is_sync }),
{
    let n = s.len();
    lemma_one_per_chunk(n);
    assert(chunk_map(n, n, seq![(1u32, 1u32)]) == Seq::new(n, |c: int| (c, 0int)));
    lemma_runs_expand(s);
    assert(sample_duration(duration_runs(s), i) == s[i].duration);
    lemma_sync_numbers(s, n as int);
    assert(((i + 1) % 4294967296) as u32 == i + 1);
}

} // verus!
