use vstd::prelude::*;
use crate::util::buffer::Buffer;
use crate::util::error::{Error, Result, msg};
use crate::util::frame::MediaType;
use crate::util::rational::Rational;
use crate::codec::codec::CodecId;
use crate::codec::codec_par::CodecParameters;
use crate::codec::packet::Packet;
use crate::format::demux::{DemuxHeader, Demuxer};
use crate::format::io::{IOContext, be_value};
use crate::format::metadata::Metadata;
use crate::format::stream::Stream;
use crate::format::mp4::boxes::{BoxHeader, box_at, read_box_header, read_full_box_header, skip_box, is_container_box};
use crate::format::mp4::table::{SampleEntry, build_sample_table, sample_at};

verus! {

/// How far a position is from the end of the data: positions past the end
/// count as at the end.
pub open spec fn room(len: nat, pos: int) -> nat {
    if pos <= len { (len - pos + 1) as nat } else { 0 }
}

/// Track info extracted from moov.
#[derive(Debug)]
pub struct TrackInfo {
    /// Track ID from the track header.
    pub track_id: u32,
    /// Units per second of the track's times.
    pub timescale: u32,
    /// Codec of the sample entry.
    pub codec_id: CodecId,
    /// Parameters from the sample entry.
    pub params: CodecParameters,
    /// The samples, in order.
    pub samples: Vec<SampleEntry>,
}

/// What the boxes of a track give, collected while walking them.
struct TrakState {
    track_id: u32,
    timescale: u32,
    codec_id: CodecId,
    width: u32,
    height: u32,
    sample_rate: u32,
    channels: u16,
    is_audio: bool,
    sample_sizes: Vec<u32>,
    chunk_offsets: Vec<u64>,
    sample_durations: Vec<(u32, u32)>,
    samples_per_chunk: Vec<(u32, u32)>,
    sync_samples: Option<Vec<u32>>,
}

/// The contents a walk keeps: data, seekability and recorded size.
pub open spec fn same_source(a: &IOContext, b: &IOContext) -> bool {
    a.spec_data() == b.spec_data() && a.spec_seekable() == b.spec_seekable() && a.spec_size() == b.spec_size()
}

/// `n` big-endian 32-bit values read from the position (see [`be32s`]).
fn read_be32s(io: &mut IOContext, n: u32) -> (r: Result<Vec<u32>>)
    ensures
        same_source(&*old(io), &*final(io)),
        r is Err ==> r == Err::<Vec<u32>, Error>(Error::Eof),
        r is Ok <==> (n == 0 || fits(old(io).spec_data(), old(io).spec_pos() as int, 4 * n)),
        r matches Ok(v) ==> v@ == be32s(old(io).spec_data(), old(io).spec_pos() as int, n as nat)
            && final(io).spec_pos() == old(io).spec_pos() + 4 * n,
        old(io).spec_pos() <= old(io).spec_data().len() ==> final(io).spec_pos() >= old(io).spec_pos(),
{
    let ghost d = io.spec_data();
    let ghost p = io.spec_pos() as int;
    let mut v: Vec<u32> = Vec::new();
    let mut i: u32 = 0;
    while i < n
        invariant
            i <= n, v@.len() == i, same_source(&*old(io), &*io), d == old(io).spec_data(), p == old(io).spec_pos(),
            io.spec_pos() == p + 4 * i, i > 0 ==> fits(d, p, 4 * i),
            v@ == be32s(d, p, i as nat),
        decreases n - i,
    {
        let x = io.read_u32_be()?;
        v.push(x);
        i += 1;
        assert(v@ =~= be32s(d, p, i as nat));
    }
    Ok(v)
}

/// What the boxes of a track have given so far.
pub struct TrakModel {
    pub track_id: u32,
    pub timescale: u32,
    pub codec_id: CodecId,
    pub width: u32,
    pub height: u32,
    pub sample_rate: u32,
    pub channels: u16,
    pub is_audio: bool,
    pub sizes: Seq<u32>,
    pub offsets: Seq<u64>,
    pub runs: Seq<(u32, u32)>,
    pub tab: Seq<(u32, u32)>,
    pub sync: Option<Seq<u32>>,
}

impl TrakState {
    /// What the walk has collected.
    closed spec fn model(&self) -> TrakModel {
        TrakModel {
            track_id: self.track_id, timescale: self.timescale, codec_id: self.codec_id,
            width: self.width, height: self.height, sample_rate: self.sample_rate,
            channels: self.channels, is_audio: self.is_audio, sizes: self.sample_sizes@,
            offsets: self.chunk_offsets@, runs: self.sample_durations@, tab: self.samples_per_chunk@,
            sync: match self.sync_samples { Some(v) => Some(v@), None => None },
        }
    }
}

/// Whether the `n` bytes at `p` are in `d`.
pub open spec fn fits(d: Seq<u8>, p: int, n: int) -> bool {
    0 <= p && p + n <= d.len()
}

/// The big-endian 32-bit value at `p`.
pub open spec fn be32(d: Seq<u8>, p: int) -> u32 {
    be_value(d.subrange(p, p + 4)) as u32
}

/// The big-endian 16-bit value at `p`.
pub open spec fn be16(d: Seq<u8>, p: int) -> u16 {
    be_value(d.subrange(p, p + 2)) as u16
}

/// The big-endian 64-bit value at `p`.
pub open spec fn be64(d: Seq<u8>, p: int) -> u64 {
    be_value(d.subrange(p, p + 8)) as u64
}

/// The `n` big-endian 32-bit values from `p` on.
pub open spec fn be32s(d: Seq<u8>, p: int, n: nat) -> Seq<u32> {
    Seq::new(n, |i: int| be32(d, p + 4 * i))
}

/// The 32-bit word that follows the version and flags of a full box at
/// `p` and the two times it holds (64-bit in version 1, else 32-bit): the
/// track id of a `tkhd`, the time scale of an `mdhd`.
pub open spec fn versioned_word(d: Seq<u8>, p: int) -> Option<u32> {
    if !fits(d, p, 4) {
        None
    } else {
        let q = p + 4 + (if (be_value(d.subrange(p, p + 4)) / 16777216) as u8 == 1 { 16int } else { 8int });
        if fits(d, q, 4) { Some(be32(d, q)) } else { None }
    }
}

/// The four bytes of a box type.
pub open spec fn tag(a: u8, b: u8, c: u8, e: u8) -> Seq<u8> {
    seq![a, b, c, e]
}

/// What a `stsd` box at `p` gives: with at least one sample entry, the
/// first entry's codec, and its channels and sample rate (audio) or its
/// width and height (video).
pub open spec fn stsd_effect(d: Seq<u8>, p: int, m: TrakModel, size: i64) -> Option<TrakModel> {
    if !fits(d, p, 8) {
        None
    } else if be32(d, p + 4) == 0 {
        Some(m)
    } else {
        match crate::format::mp4::boxes::box_at(d, p + 8, size) {
            None => None,
            Some(h) => {
                let e = h.payload_offset as int + 8;
                if !fits(d, e + 16, 4) {
                    None
                } else if m.is_audio {
                    Some(TrakModel {
                        codec_id: audio_codec_of(h.box_type@), channels: be16(d, e + 8),
                        sample_rate: be32(d, e + 16) / 65536, ..m
                    })
                } else {
                    Some(TrakModel {
                        codec_id: video_codec_of(h.box_type@), width: be16(d, e + 16) as u32,
                        height: be16(d, e + 18) as u32, ..m
                    })
                }
            }
        }
    }
}

/// What a `stsz` box at `p` gives: the sample sizes, listed, or all equal
/// to the default size.
pub open spec fn stsz_effect(d: Seq<u8>, p: int, m: TrakModel) -> Option<TrakModel> {
    if !fits(d, p, 12) {
        None
    } else {
        let def = be32(d, p + 4);
        let count = be32(d, p + 8);
        if def == 0 {
            if fits(d, p + 12, 4 * count) { Some(TrakModel { sizes: m.sizes + be32s(d, p + 12, count as nat), ..m }) } else { None }
        } else {
            Some(TrakModel { sizes: Seq::new(count as nat, |_i: int| def), ..m })
        }
    }
}

/// The entry count of a table box at `p`, when its entries of `w` bytes
/// are all there.
pub open spec fn table_count(d: Seq<u8>, p: int, w: int) -> Option<nat> {
    if fits(d, p, 8) && fits(d, p + 8, w * be32(d, p + 4)) { Some(be32(d, p + 4) as nat) } else { None }
}

/// What one box of a track, at payload position `p` with type `t`, gives:
/// the collected track and whether to walk into the box.
pub open spec fn trak_box_effect(d: Seq<u8>, p: int, t: Seq<u8>, m: TrakModel, size: i64) -> Option<(TrakModel, bool)> {
    if t == tag(0x74, 0x6b, 0x68, 0x64) {
        match versioned_word(d, p) { Some(v) => Some((TrakModel { track_id: v, ..m }, false)), None => None }
    } else if t == tag(0x6d, 0x64, 0x68, 0x64) {
        match versioned_word(d, p) { Some(v) => Some((TrakModel { timescale: v, ..m }, false)), None => None }
    } else if t == tag(0x68, 0x64, 0x6c, 0x72) {
        if fits(d, p + 8, 4) {
            Some((TrakModel { is_audio: d.subrange(p + 8, p + 12) == tag(0x73, 0x6f, 0x75, 0x6e), ..m }, false))
        } else { None }
    } else if t == tag(0x73, 0x74, 0x73, 0x64) {
        match stsd_effect(d, p, m, size) { Some(m1) => Some((m1, false)), None => None }
    } else if t == tag(0x73, 0x74, 0x73, 0x7a) {
        match stsz_effect(d, p, m) { Some(m1) => Some((m1, false)), None => None }
    } else if t == tag(0x73, 0x74, 0x63, 0x6f) {
        match table_count(d, p, 4) {
            Some(n) => Some((TrakModel { offsets: m.offsets + Seq::new(n, |i: int| be32(d, p + 8 + 4 * i) as u64), ..m }, false)),
            None => None,
        }
    } else if t == tag(0x63, 0x6f, 0x36, 0x34) {
        match table_count(d, p, 8) {
            Some(n) => Some((TrakModel { offsets: m.offsets + Seq::new(n, |i: int| be64(d, p + 8 + 8 * i)), ..m }, false)),
            None => None,
        }
    } else if t == tag(0x73, 0x74, 0x74, 0x73) {
        match table_count(d, p, 8) {
            Some(n) => Some((TrakModel { runs: m.runs + Seq::new(n, |i: int| (be32(d, p + 8 + 8 * i), be32(d, p + 12 + 8 * i))), ..m }, false)),
            None => None,
        }
    } else if t == tag(0x73, 0x74, 0x73, 0x63) {
        match table_count(d, p, 12) {
            Some(n) => Some((TrakModel { tab: m.tab + Seq::new(n, |i: int| (be32(d, p + 8 + 12 * i), be32(d, p + 12 + 12 * i))), ..m }, false)),
            None => None,
        }
    } else if t == tag(0x73, 0x74, 0x73, 0x73) {
        match table_count(d, p, 4) {
            Some(n) => Some((TrakModel { sync: Some(be32s(d, p + 8, n)), ..m }, false)),
            None => None,
        }
    } else {
        Some((m, is_container_type(t)))
    }
}

/// Read the word after a full box header and its two times (see
/// [`versioned_word`]).
fn read_versioned_word(io: &mut IOContext) -> (r: Result<u32>)
    requires old(io).spec_data().len() <= u64::MAX,
    ensures
        same_source(&*old(io), &*final(io)),
        r is Ok <==> versioned_word(old(io).spec_data(), old(io).spec_pos() as int) is Some,
        r matches Ok(v) ==> versioned_word(old(io).spec_data(), old(io).spec_pos() as int) == Some(v),
        old(io).spec_pos() <= old(io).spec_data().len() ==> final(io).spec_pos() >= old(io).spec_pos(),
{
    let (version, _flags) = read_full_box_header(io)?;
    if version == 1 {
        io.skip(16)?;
    } else {
        io.skip(8)?;
    }
    io.read_u32_be()
}

/// Read the handler type of an `hdlr` box: whether it is `soun`.
fn read_handler(io: &mut IOContext) -> (r: Result<bool>)
    requires old(io).spec_data().len() <= u64::MAX,
    ensures
        same_source(&*old(io), &*final(io)),
        ({
            let (d, p) = (old(io).spec_data(), old(io).spec_pos() as int);
            &&& r is Ok <==> fits(d, p + 8, 4)
            &&& r matches Ok(b) ==> b == (d.subrange(p + 8, p + 12) == tag(0x73, 0x6f, 0x75, 0x6e))
        }),
        old(io).spec_pos() <= old(io).spec_data().len() ==> final(io).spec_pos() >= old(io).spec_pos(),
{
    let _ = read_full_box_header(io)?;
    io.skip(4)?;
    let mut handler = [0u8; 4];
    io.read_exact(&mut handler)?;
    Ok(is4(&handler, 0x73, 0x6f, 0x75, 0x6e))
}

/// Read a `stsd` box into the track (see [`stsd_effect`]).
fn read_stsd(io: &mut IOContext, st: &mut TrakState) -> (r: Result<()>)
    requires old(io).spec_data().len() <= u64::MAX,
    ensures
        same_source(&*old(io), &*final(io)),
        r is Ok <==> stsd_effect(old(io).spec_data(), old(io).spec_pos() as int, old(st).model(), old(io).spec_size()) is Some,
        r is Ok ==> stsd_effect(old(io).spec_data(), old(io).spec_pos() as int, old(st).model(), old(io).spec_size())
            == Some(final(st).model()),
        old(io).spec_pos() <= old(io).spec_data().len() ==> final(io).spec_pos() >= old(io).spec_pos(),
{
    let _ = read_full_box_header(io)?;
    let entry_count = io.read_u32_be()?;
    if entry_count > 0 {
        let entry_header = read_box_header(io)?;
        let t = entry_header.box_type;
        io.skip(8)?;
        if st.is_audio {
            io.skip(8)?;
            let channels = io.read_u16_be()?;
            io.skip(2)?;
            io.skip(4)?;
            let rate = io.read_u32_be()?;
            st.channels = channels;
            st.sample_rate = rate / 65536;
            st.codec_id = audio_codec(&t);
        } else {
            io.skip(16)?;
            let width = io.read_u16_be()?;
            let height = io.read_u16_be()?;
            st.width = width as u32;
            st.height = height as u32;
            st.codec_id = video_codec(&t);
        }
    }
    Ok(())
}

/// Read a `stsz` box into the track (see [`stsz_effect`]).
fn read_stsz(io: &mut IOContext, st: &mut TrakState) -> (r: Result<()>)
    requires old(io).spec_data().len() <= u64::MAX,
    ensures
        same_source(&*old(io), &*final(io)),
        r is Ok <==> stsz_effect(old(io).spec_data(), old(io).spec_pos() as int, old(st).model()) is Some,
        r is Ok ==> stsz_effect(old(io).spec_data(), old(io).spec_pos() as int, old(st).model()) == Some(final(st).model()),
        old(io).spec_pos() <= old(io).spec_data().len() ==> final(io).spec_pos() >= old(io).spec_pos(),
{
    let _ = read_full_box_header(io)?;
    let default_size = io.read_u32_be()?;
    let count = io.read_u32_be()?;
    if default_size == 0 {
        let v = read_be32s(io, count)?;
        append_u32s(&mut st.sample_sizes, &v);
    } else {
        st.sample_sizes = repeat_u32(default_size, count);
    }
    Ok(())
}

/// Read the chunk offsets of a `stco` box into the track.
fn read_stco(io: &mut IOContext, st: &mut TrakState) -> (r: Result<()>)
    requires old(io).spec_data().len() <= u64::MAX,
    ensures
        same_source(&*old(io), &*final(io)),
        ({
            let (d, p, m) = (old(io).spec_data(), old(io).spec_pos() as int, old(st).model());
            &&& r is Ok <==> table_count(d, p, 4) is Some
            &&& r is Ok ==> final(st).model() == (TrakModel {
                offsets: m.offsets + Seq::new(be32(d, p + 4) as nat, |i: int| be32(d, p + 8 + 4 * i) as u64), ..m })
        }),
        old(io).spec_pos() <= old(io).spec_data().len() ==> final(io).spec_pos() >= old(io).spec_pos(),
{
    let ghost d = io.spec_data();
    let ghost p = io.spec_pos() as int;
    let _ = read_full_box_header(io)?;
    let count = io.read_u32_be()?;
    let mut i: u32 = 0;
    while i < count
        invariant
            same_source(&*old(io), &*io), d == old(io).spec_data(), p == old(io).spec_pos(),
            i <= count, count == be32(d, p + 4), fits(d, p, 8), fits(d, p + 8, 4 * i),
            io.spec_pos() == p + 8 + 4 * i,
            st.model() == (TrakModel { offsets: old(st).model().offsets
                + Seq::new(i as nat, |k: int| be32(d, p + 8 + 4 * k) as u64), ..old(st).model() }),
        decreases count - i,
    {
        let x = io.read_u32_be()?;
        st.chunk_offsets.push(x as u64);
        i += 1;
        assert(st.model().offsets =~= old(st).model().offsets + Seq::new(i as nat, |k: int| be32(d, p + 8 + 4 * k) as u64));
    }
    Ok(())
}

/// Read the 64-bit chunk offsets of a `co64` box into the track.
fn read_co64(io: &mut IOContext, st: &mut TrakState) -> (r: Result<()>)
    requires old(io).spec_data().len() <= u64::MAX,
    ensures
        same_source(&*old(io), &*final(io)),
        ({
            let (d, p, m) = (old(io).spec_data(), old(io).spec_pos() as int, old(st).model());
            &&& r is Ok <==> table_count(d, p, 8) is Some
            &&& r is Ok ==> final(st).model() == (TrakModel {
                offsets: m.offsets + Seq::new(be32(d, p + 4) as nat, |i: int| be64(d, p + 8 + 8 * i)), ..m })
        }),
        old(io).spec_pos() <= old(io).spec_data().len() ==> final(io).spec_pos() >= old(io).spec_pos(),
{
    let ghost d = io.spec_data();
    let ghost p = io.spec_pos() as int;
    let _ = read_full_box_header(io)?;
    let count = io.read_u32_be()?;
    let mut i: u32 = 0;
    while i < count
        invariant
            same_source(&*old(io), &*io), d == old(io).spec_data(), p == old(io).spec_pos(),
            i <= count, count == be32(d, p + 4), fits(d, p, 8), fits(d, p + 8, 8 * i),
            io.spec_pos() == p + 8 + 8 * i,
            st.model() == (TrakModel { offsets: old(st).model().offsets
                + Seq::new(i as nat, |k: int| be64(d, p + 8 + 8 * k)), ..old(st).model() }),
        decreases count - i,
    {
        let x = io.read_u64_be()?;
        st.chunk_offsets.push(x);
        i += 1;
        assert(st.model().offsets =~= old(st).model().offsets + Seq::new(i as nat, |k: int| be64(d, p + 8 + 8 * k)));
    }
    Ok(())
}

/// Read the duration runs of a `stts` box into the track.
fn read_stts(io: &mut IOContext, st: &mut TrakState) -> (r: Result<()>)
    requires old(io).spec_data().len() <= u64::MAX,
    ensures
        same_source(&*old(io), &*final(io)),
        ({
            let (d, p, m) = (old(io).spec_data(), old(io).spec_pos() as int, old(st).model());
            &&& r is Ok <==> table_count(d, p, 8) is Some
            &&& r is Ok ==> final(st).model() == (TrakModel {
                runs: m.runs + Seq::new(be32(d, p + 4) as nat, |i: int| (be32(d, p + 8 + 8 * i), be32(d, p + 12 + 8 * i))), ..m })
        }),
        old(io).spec_pos() <= old(io).spec_data().len() ==> final(io).spec_pos() >= old(io).spec_pos(),
{
    let ghost d = io.spec_data();
    let ghost p = io.spec_pos() as int;
    let _ = read_full_box_header(io)?;
    let count = io.read_u32_be()?;
    let mut i: u32 = 0;
    while i < count
        invariant
            same_source(&*old(io), &*io), d == old(io).spec_data(), p == old(io).spec_pos(),
            i <= count, count == be32(d, p + 4), fits(d, p, 8), fits(d, p + 8, 8 * i),
            io.spec_pos() == p + 8 + 8 * i,
            st.model() == (TrakModel { runs: old(st).model().runs
                + Seq::new(i as nat, |k: int| (be32(d, p + 8 + 8 * k), be32(d, p + 12 + 8 * k))), ..old(st).model() }),
        decreases count - i,
    {
        let sample_count = io.read_u32_be()?;
        let sample_delta = io.read_u32_be()?;
        st.sample_durations.push((sample_count, sample_delta));
        i += 1;
        assert(st.model().runs =~= old(st).model().runs
            + Seq::new(i as nat, |k: int| (be32(d, p + 8 + 8 * k), be32(d, p + 12 + 8 * k))));
    }
    Ok(())
}

/// Read the chunk table of a `stsc` box into the track: first chunk and
/// samples per chunk of each entry.
fn read_stsc(io: &mut IOContext, st: &mut TrakState) -> (r: Result<()>)
    requires old(io).spec_data().len() <= u64::MAX,
    ensures
        same_source(&*old(io), &*final(io)),
        ({
            let (d, p, m) = (old(io).spec_data(), old(io).spec_pos() as int, old(st).model());
            &&& r is Ok <==> table_count(d, p, 12) is Some
            &&& r is Ok ==> final(st).model() == (TrakModel {
                tab: m.tab + Seq::new(be32(d, p + 4) as nat, |i: int| (be32(d, p + 8 + 12 * i), be32(d, p + 12 + 12 * i))), ..m })
        }),
        old(io).spec_pos() <= old(io).spec_data().len() ==> final(io).spec_pos() >= old(io).spec_pos(),
{
    let ghost d = io.spec_data();
    let ghost p = io.spec_pos() as int;
    let _ = read_full_box_header(io)?;
    let count = io.read_u32_be()?;
    let mut i: u32 = 0;
    while i < count
        invariant
            same_source(&*old(io), &*io), d == old(io).spec_data(), p == old(io).spec_pos(),
            i <= count, count == be32(d, p + 4), fits(d, p, 8), fits(d, p + 8, 12 * i),
            io.spec_pos() == p + 8 + 12 * i,
            st.model() == (TrakModel { tab: old(st).model().tab
                + Seq::new(i as nat, |k: int| (be32(d, p + 8 + 12 * k), be32(d, p + 12 + 12 * k))), ..old(st).model() }),
        decreases count - i,
    {
        let first_chunk = io.read_u32_be()?;
        let spc = io.read_u32_be()?;
        let _desc_idx = io.read_u32_be()?;
        st.samples_per_chunk.push((first_chunk, spc));
        i += 1;
        assert(st.model().tab =~= old(st).model().tab
            + Seq::new(i as nat, |k: int| (be32(d, p + 8 + 12 * k), be32(d, p + 12 + 12 * k))));
    }
    Ok(())
}

/// Read the sync samples of a `stss` box into the track.
fn read_stss(io: &mut IOContext, st: &mut TrakState) -> (r: Result<()>)
    requires old(io).spec_data().len() <= u64::MAX,
    ensures
        same_source(&*old(io), &*final(io)),
        ({
            let (d, p, m) = (old(io).spec_data(), old(io).spec_pos() as int, old(st).model());
            &&& r is Ok <==> table_count(d, p, 4) is Some
            &&& r is Ok ==> final(st).model() == (TrakModel { sync: Some(be32s(d, p + 8, be32(d, p + 4) as nat)), ..m })
        }),
        old(io).spec_pos() <= old(io).spec_data().len() ==> final(io).spec_pos() >= old(io).spec_pos(),
{
    let _ = read_full_box_header(io)?;
    let count = io.read_u32_be()?;
    let syncs = read_be32s(io, count)?;
    st.sync_samples = Some(syncs);
    Ok(())
}

/// Handles one box of a track at its payload (see [`trak_box_effect`]):
/// reads what the track needs from it, and says whether to walk into it.
#[verifier::rlimit(60)]
fn handle_trak_box(io: &mut IOContext, header: &BoxHeader, st: &mut TrakState) -> (r: Result<bool>)
    requires old(io).spec_data().len() <= u64::MAX,
    ensures
        same_source(&*old(io), &*final(io)),
        ({
            let e = trak_box_effect(old(io).spec_data(), old(io).spec_pos() as int, header.box_type@,
                old(st).model(), old(io).spec_size());
            &&& r is Ok <==> e is Some
            &&& r matches Ok(b) ==> e == Some((final(st).model(), b))
        }),
        r matches Ok(b) ==> b ==> *final(io) == *old(io),
        old(io).spec_pos() <= old(io).spec_data().len() ==> final(io).spec_pos() >= old(io).spec_pos(),
{
    let t = &header.box_type;
    if is4(t, 0x74, 0x6b, 0x68, 0x64) {
        st.track_id = read_versioned_word(io)?;
        Ok(false)
    } else if is4(t, 0x6d, 0x64, 0x68, 0x64) {
        st.timescale = read_versioned_word(io)?;
        Ok(false)
    } else if is4(t, 0x68, 0x64, 0x6c, 0x72) {
        st.is_audio = read_handler(io)?;
        Ok(false)
    } else if is4(t, 0x73, 0x74, 0x73, 0x64) {
        read_stsd(io, st)?;
        Ok(false)
    } else if is4(t, 0x73, 0x74, 0x73, 0x7a) {
        read_stsz(io, st)?;
        Ok(false)
    } else if is4(t, 0x73, 0x74, 0x63, 0x6f) {
        read_stco(io, st)?;
        Ok(false)
    } else if is4(t, 0x63, 0x6f, 0x36, 0x34) {
        read_co64(io, st)?;
        Ok(false)
    } else if is4(t, 0x73, 0x74, 0x74, 0x73) {
        read_stts(io, st)?;
        Ok(false)
    } else if is4(t, 0x73, 0x74, 0x73, 0x63) {
        read_stsc(io, st)?;
        Ok(false)
    } else if is4(t, 0x73, 0x74, 0x73, 0x73) {
        read_stss(io, st)?;
        Ok(false)
    } else {
        Ok(is_container_box(t))
    }
}

/// Whether a type is that of a container box.
pub open spec fn is_container_type(t: Seq<u8>) -> bool {
    crate::format::mp4::boxes::container_types().contains(t)
}

fn append_u32s(dst: &mut Vec<u32>, src: &Vec<u32>)
    ensures final(dst)@ == old(dst)@ + src@,
{
    let mut i: usize = 0;
    while i < src.len()
        invariant i <= src@.len(), dst@ == old(dst)@ + src@.take(i as int),
        decreases src.len() - i,
    {
        dst.push(src[i]);
        i += 1;
        assert(dst@ =~= old(dst)@ + src@.take(i as int));
    }
    assert(src@.take(src@.len() as int) =~= src@);
}

fn repeat_u32(v: u32, n: u32) -> (r: Vec<u32>)
    ensures r@ == Seq::new(n as nat, |_i: int| v),
{
    let mut out: Vec<u32> = Vec::new();
    let mut i: u32 = 0;
    while i < n
        invariant i <= n, out@ == Seq::new(i as nat, |_i: int| v),
        decreases n - i,
    {
        out.push(v);
        i += 1;
        assert(out@ =~= Seq::new(i as nat, |_i: int| v));
    }
    out
}

/// The codec of an audio sample entry type.
pub open spec fn audio_codec_of(t: Seq<u8>) -> CodecId {
    if t == seq![0x6du8, 0x70, 0x34, 0x61] { CodecId::Aac }
    else if t == seq![0x4fu8, 0x70, 0x75, 0x73] { CodecId::Opus }
    else if t == seq![0x66u8, 0x4c, 0x61, 0x43] { CodecId::Flac }
    else { CodecId::NoCodec }
}

/// The codec of a video sample entry type.
pub open spec fn video_codec_of(t: Seq<u8>) -> CodecId {
    if t == seq![0x61u8, 0x76, 0x63, 0x31] || t == seq![0x61u8, 0x76, 0x63, 0x33] { CodecId::H264 }
    else if t == seq![0x68u8, 0x76, 0x63, 0x31] || t == seq![0x68u8, 0x65, 0x76, 0x31] { CodecId::Hevc }
    else if t == seq![0x76u8, 0x70, 0x30, 0x39] { CodecId::Vp9 }
    else if t == seq![0x61u8, 0x76, 0x30, 0x31] { CodecId::Av1 }
    else { CodecId::NoCodec }
}

/// The four characters of a sample entry type.
pub open spec fn fourcc_chars(a: char, b: char, c: char, e: char) -> Seq<u8> {
    seq![a as u8, b as u8, c as u8, e as u8]
}

/// Which codec a video sample entry names: H.264 exactly for `avc1` and
/// `avc3`, HEVC exactly for `hvc1` and `hev1`, VP9 for `vp09`, AV1 for
/// `av01`, and no codec for any other type; and which an audio one names:
/// AAC for `mp4a`, Opus for `Opus`, FLAC for `fLaC`, else none.
pub proof fn law_sample_entry_codecs(t: Seq<u8>)
    ensures
        video_codec_of(t) == CodecId::H264 <==> t == fourcc_chars('a', 'v', 'c', '1') || t == fourcc_chars('a', 'v', 'c', '3'),
        video_codec_of(t) == CodecId::Hevc <==> t == fourcc_chars('h', 'v', 'c', '1') || t == fourcc_chars('h', 'e', 'v', '1'),
        video_codec_of(t) == CodecId::Vp9 <==> t == fourcc_chars('v', 'p', '0', '9'),
        video_codec_of(t) == CodecId::Av1 <==> t == fourcc_chars('a', 'v', '0', '1'),
        audio_codec_of(t) == CodecId::Aac <==> t == fourcc_chars('m', 'p', '4', 'a'),
        audio_codec_of(t) == CodecId::Opus <==> t == fourcc_chars('O', 'p', 'u', 's'),
        audio_codec_of(t) == CodecId::Flac <==> t == fourcc_chars('f', 'L', 'a', 'C'),
        video_codec_of(fourcc_chars('h', 'v', 'c', '1')) == video_codec_of(fourcc_chars('h', 'e', 'v', '1')),
{
    assert(fourcc_chars('a', 'v', 'c', '1') =~= seq![0x61u8, 0x76, 0x63, 0x31]);
    assert(fourcc_chars('a', 'v', 'c', '3') =~= seq![0x61u8, 0x76, 0x63, 0x33]);
    assert(fourcc_chars('h', 'v', 'c', '1') =~= seq![0x68u8, 0x76, 0x63, 0x31]);
    assert(fourcc_chars('h', 'e', 'v', '1') =~= seq![0x68u8, 0x65, 0x76, 0x31]);
    assert(fourcc_chars('v', 'p', '0', '9') =~= seq![0x76u8, 0x70, 0x30, 0x39]);
    assert(fourcc_chars('a', 'v', '0', '1') =~= seq![0x61u8, 0x76, 0x30, 0x31]);
    assert(fourcc_chars('m', 'p', '4', 'a') =~= seq![0x6du8, 0x70, 0x34, 0x61]);
    assert(fourcc_chars('O', 'p', 'u', 's') =~= seq![0x4fu8, 0x70, 0x75, 0x73]);
    assert(fourcc_chars('f', 'L', 'a', 'C') =~= seq![0x66u8, 0x4c, 0x61, 0x43]);
}

/// A video track's `stsd` box with a sample entry gives the codec of that
/// entry's type: an `hvc1` or `hev1` entry makes it HEVC, an `avc1` or
/// `avc3` entry H.264; with its width and height.
pub proof fn law_stsd_video_codec(d: Seq<u8>, p: int, m: TrakModel, size: i64)
    requires
        !m.is_audio,
        stsd_effect(d, p, m, size) is Some,
        fits(d, p, 8) && be32(d, p + 4) != 0,
    ensures ({
        let h = crate::format::mp4::boxes::box_at(d, p + 8, size)->0;
        let m1 = stsd_effect(d, p, m, size)->0;
        &&& h.box_type@ == fourcc_chars('h', 'v', 'c', '1') || h.box_type@ == fourcc_chars('h', 'e', 'v', '1')
            <==> m1.codec_id == CodecId::Hevc
        &&& h.box_type@ == fourcc_chars('a', 'v', 'c', '1') || h.box_type@ == fourcc_chars('a', 'v', 'c', '3')
            <==> m1.codec_id == CodecId::H264
        &&& m1.width == be16(d, h.payload_offset + 24) as u32 && m1.height == be16(d, h.payload_offset + 26) as u32
    }),
{
    let h = crate::format::mp4::boxes::box_at(d, p + 8, size)->0;
    law_sample_entry_codecs(h.box_type@);
}

/// An audio track's `stsd` box with a sample entry gives the codec of that
/// entry's type (AAC for `mp4a`, Opus for `Opus`, FLAC for `fLaC`), the
/// channel count at bytes 16-17 of the entry's payload and the integer part
/// of its 16.16 sample rate at bytes 24-27.
pub proof fn law_stsd_audio_codec(d: Seq<u8>, p: int, m: TrakModel, size: i64)
    requires
        m.is_audio,
        stsd_effect(d, p, m, size) is Some,
        fits(d, p, 8) && be32(d, p + 4) != 0,
    ensures ({
        let h = crate::format::mp4::boxes::box_at(d, p + 8, size)->0;
        let m1 = stsd_effect(d, p, m, size)->0;
        &&& h.box_type@ == fourcc_chars('m', 'p', '4', 'a') <==> m1.codec_id == CodecId::Aac
        &&& h.box_type@ == fourcc_chars('O', 'p', 'u', 's') <==> m1.codec_id == CodecId::Opus
        &&& h.box_type@ == fourcc_chars('f', 'L', 'a', 'C') <==> m1.codec_id == CodecId::Flac
        &&& m1.channels == be16(d, h.payload_offset + 16)
        &&& m1.sample_rate == be32(d, h.payload_offset + 24) / 65536
    }),
{
    let h = crate::format::mp4::boxes::box_at(d, p + 8, size)->0;
    law_sample_entry_codecs(h.box_type@);
}

fn is4(t: &[u8; 4], a: u8, b: u8, c: u8, d: u8) -> (r: bool)
    ensures r == (t@ == seq![a, b, c, d]),
{
    let r = t[0] == a && t[1] == b && t[2] == c && t[3] == d;
    proof {
        if r { assert(t@ =~= seq![a, b, c, d]); }
        if t@ == seq![a, b, c, d] { assert(t@[0] == a && t@[1] == b && t@[2] == c && t@[3] == d); }
    }
    r
}

/// mp4a, Opus and fLaC entries are AAC, Opus and FLAC.
fn audio_codec(t: &[u8; 4]) -> (r: CodecId)
    ensures r == audio_codec_of(t@),
{
    if is4(t, 0x6d, 0x70, 0x34, 0x61) { CodecId::Aac }
    else if is4(t, 0x4f, 0x70, 0x75, 0x73) { CodecId::Opus }
    else if is4(t, 0x66, 0x4c, 0x61, 0x43) { CodecId::Flac }
    else { CodecId::NoCodec }
}

/// avc1/avc3, hvc1/hev1, vp09 and av01 entries are H.264, HEVC, VP9 and AV1.
fn video_codec(t: &[u8; 4]) -> (r: CodecId)
    ensures r == video_codec_of(t@),
{
    if is4(t, 0x61, 0x76, 0x63, 0x31) || is4(t, 0x61, 0x76, 0x63, 0x33) { CodecId::H264 }
    else if is4(t, 0x68, 0x76, 0x63, 0x31) || is4(t, 0x68, 0x65, 0x76, 0x31) { CodecId::Hevc }
    else if is4(t, 0x76, 0x70, 0x30, 0x39) { CodecId::Vp9 }
    else if is4(t, 0x61, 0x76, 0x30, 0x31) { CodecId::Av1 }
    else { CodecId::NoCodec }
}

/// The walk of the boxes from `p` up to `end` (see [`parse_boxes`]): the
/// track collected and where the walk stops, or `None` when it fails. A box
/// header that cannot be read ends the walk at the end of the data; each
/// box is handed to [`trak_box_effect`], walked into when that says so,
/// and the walk moves on to its end, which needs a seekable source.
pub open spec fn walk(d: Seq<u8>, p: int, end: int, m: TrakModel, size: i64, seekable: bool) -> Option<(TrakModel, int)>
    decreases room(d.len(), p),
{
    if p >= end {
        Some((m, p))
    } else if p < 0 || d.len() > u64::MAX {
        None
    } else {
        match crate::format::mp4::boxes::box_at(d, p, size) {
            None => Some((m, d.len() as int)),
            Some(h) => {
                let box_end = h.payload_offset + h.payload_size;
                if box_end > u64::MAX {
                    None
                } else {
                    match trak_box_effect(d, h.payload_offset as int, h.box_type@, m, size) {
                        None => None,
                        Some((m1, rec)) => {
                            let inner = if rec {
                                walk(d, h.payload_offset as int, box_end, m1, size, seekable)
                            } else {
                                Some((m1, 0int))
                            };
                            match inner {
                                None => None,
                                Some((m2, _q)) => if seekable { walk(d, box_end, end, m2, size, seekable) } else { None },
                            }
                        }
                    }
                }
            }
        }
    }
}

/// Walks the boxes from the position up to `end` (see [`walk`]), handing
/// each to the track's handler and walking into the containers it names.
fn parse_boxes(io: &mut IOContext, end: u64, st: &mut TrakState) -> (r: Result<()>)
    requires old(io).spec_data().len() <= u64::MAX,
    ensures
        same_source(&*old(io), &*final(io)),
        ({
            let w = walk(old(io).spec_data(), old(io).spec_pos() as int, end as int, old(st).model(),
                old(io).spec_size(), old(io).spec_seekable());
            &&& r is Ok <==> w is Some
            &&& r is Ok ==> w == Some((final(st).model(), final(io).spec_pos() as int))
        }),
        old(io).spec_pos() <= old(io).spec_data().len() ==> final(io).spec_pos() >= old(io).spec_pos(),
    decreases room(old(io).spec_data().len(), old(io).spec_pos() as int),
{
    let ghost len = io.spec_data().len();
    let ghost start = io.spec_pos();
    loop
        invariant
            same_source(&*old(io), &*io), len == io.spec_data().len(), start == old(io).spec_pos(),
            len <= u64::MAX,
            start <= len ==> io.spec_pos() >= start,
            start > len ==> io.spec_pos() == start,
            walk(io.spec_data(), start as int, end as int, old(st).model(), io.spec_size(), io.spec_seekable())
                == walk(io.spec_data(), io.spec_pos() as int, end as int, st.model(), io.spec_size(), io.spec_seekable()),
        decreases room(len, io.spec_pos() as int),
    {
        let pos = io.position()?;
        if pos >= end {
            return Ok(());
        }
        let header = match read_box_header(io) {
            Ok(h) => h,
            Err(_) => { return Ok(()); }
        };
        let box_end = match header.payload_offset.checked_add(header.payload_size) {
            Some(e) => e,
            None => { return Err(Error::InvalidData(msg("box extends past the largest position"))); }
        };
        let recurse = handle_trak_box(io, &header, st)?;
        if recurse {
            parse_boxes(io, box_end, st)?;
        }
        io.seek(box_end)?;
    }
}

impl TrakState {
    fn new() -> (r: Self)
        ensures r.model() == initial_trak(),
    {
        TrakState {
            track_id: 0, timescale: 1000, codec_id: CodecId::NoCodec, width: 0, height: 0,
            sample_rate: 0, channels: 0, is_audio: false, sample_sizes: Vec::new(),
            chunk_offsets: Vec::new(), sample_durations: Vec::new(), samples_per_chunk: Vec::new(),
            sync_samples: None,
        }
    }
}

/// A track from what its boxes gave: the flat sample table, and parameters
/// with defaults for what the sample entry left unset (44100 Hz stereo for
/// audio, 1920x1080 for video).
pub open spec fn track_from(track_id: u32, timescale: u32, codec_id: CodecId, is_audio: bool,
    width: u32, height: u32, sample_rate: u32, channels: u16, sizes: Seq<u32>, offsets: Seq<u64>,
    runs: Seq<(u32, u32)>, tab: Seq<(u32, u32)>, sync: Option<Seq<u32>>, t: TrackInfo) -> bool
{
    &&& t.track_id == track_id && t.timescale == timescale && t.codec_id == codec_id
    &&& t.params.codec_id == codec_id
    &&& is_audio ==> t.params.media_type == MediaType::Audio
        && t.params.sample_rate == (if sample_rate > 0 { sample_rate } else { 44100 })
        && t.params.channels == (if channels > 0 { channels } else { 2 })
    &&& !is_audio ==> t.params.media_type == MediaType::Video
        && t.params.width == (if width > 0 { width } else { 1920 })
        && t.params.height == (if height > 0 { height } else { 1080 })
    &&& t.samples@.len() == sizes.len()
    &&& forall|i: int| 0 <= i < sizes.len() ==> #[trigger] t.samples@[i] == sample_at(sizes, offsets, runs, tab, sync, i)
}

/// The track of what the walk of its boxes collected.
pub open spec fn track_of_model(m: TrakModel, t: TrackInfo) -> bool {
    track_from(m.track_id, m.timescale, m.codec_id, m.is_audio, m.width, m.height, m.sample_rate,
        m.channels, m.sizes, m.offsets, m.runs, m.tab, m.sync, t)
}

/// What a track's boxes give before any is read: track id 0, time scale
/// 1000, no codec, video, and empty tables.
pub open spec fn initial_trak() -> TrakModel {
    TrakModel {
        track_id: 0, timescale: 1000, codec_id: CodecId::NoCodec, width: 0, height: 0,
        sample_rate: 0, channels: 0, is_audio: false, sizes: Seq::empty(), offsets: Seq::empty(),
        runs: Seq::empty(), tab: Seq::empty(), sync: None,
    }
}

/// What reading the `trak` payload of `size` bytes at `offset` collects:
/// `None` when its end is past the largest position, the source cannot
/// seek, or the walk of its boxes fails.
pub open spec fn trak_walk(d: Seq<u8>, offset: int, size: int, io_size: i64, seekable: bool) -> Option<TrakModel> {
    match trak_walk_at(d, offset, size, io_size, seekable) {
        Some((m, _q)) => Some(m),
        None => None,
    }
}

/// What reading the `trak` payload collects (see [`trak_walk`]), with the
/// position where the walk of its boxes stops.
pub open spec fn trak_walk_at(d: Seq<u8>, offset: int, size: int, io_size: i64, seekable: bool) -> Option<(TrakModel, int)> {
    if offset + size > u64::MAX || !seekable {
        None
    } else {
        walk(d, offset, offset + size, initial_trak(), io_size, seekable)
    }
}

/// The `trak` box type.
pub open spec fn trak_tag() -> Seq<u8> {
    tag(0x74, 0x72, 0x61, 0x6b)
}

/// The `moov` box type.
pub open spec fn moov_tag() -> Seq<u8> {
    tag(0x6d, 0x6f, 0x6f, 0x76)
}

/// Reading the boxes of a `moov` payload from `p` up to `end`: the tracks
/// of its `trak` boxes in order, with the position where reading stops.
/// Each `trak` box is read from its payload and reading goes on where the
/// walk of its boxes stopped; other boxes are skipped; a box header that
/// cannot be read ends it at the end of the data. `None` when a `trak` box
/// is not read as a track, or a box cannot be skipped, or reading does not
/// move forward: what comes then is left open.
pub open spec fn moov_walk(d: Seq<u8>, p: int, end: int, io_size: i64, seekable: bool) -> Option<(Seq<TrakModel>, int)>
    decreases room(d.len(), p),
{
    if p < 0 || !seekable {
        None
    } else if p >= end {
        Some((Seq::empty(), p))
    } else {
        match crate::format::mp4::boxes::box_at(d, p, io_size) {
            None => Some((Seq::empty(), d.len() as int)),
            Some(h) => {
                if p + 8 > d.len() {
                    None
                } else if h.box_type@ == trak_tag() {
                    match trak_walk_at(d, h.payload_offset as int, h.payload_size as int, io_size, seekable) {
                        None => None,
                        Some((m, q)) => if q > p {
                            match moov_walk(d, q, end, io_size, seekable) {
                                Some((ms, e)) => Some((seq![m] + ms, e)),
                                None => None,
                            }
                        } else {
                            None
                        },
                    }
                } else {
                    let box_end = h.payload_offset + h.payload_size;
                    if box_end > u64::MAX || box_end <= p {
                        None
                    } else {
                        moov_walk(d, box_end, end, io_size, seekable)
                    }
                }
            }
        }
    }
}

/// Reading the top-level boxes from `p` for the tracks: the tracks of the
/// `moov` boxes, in order (see [`moov_walk`]); other boxes are skipped, and
/// a box header that cannot be read ends it. `None` when a `moov` box is
/// not read through, a box cannot be skipped, or reading does not move
/// forward.
pub open spec fn file_walk(d: Seq<u8>, p: int, io_size: i64, seekable: bool) -> Option<Seq<TrakModel>>
    decreases room(d.len(), p),
{
    if p < 0 || !seekable {
        None
    } else {
        match crate::format::mp4::boxes::box_at(d, p, io_size) {
            None => Some(Seq::empty()),
            Some(h) => {
                let box_end = h.payload_offset + h.payload_size;
                if p + 8 > d.len() || box_end > u64::MAX {
                    None
                } else if h.box_type@ == moov_tag() {
                    match moov_walk(d, h.payload_offset as int, box_end, io_size, seekable) {
                        None => None,
                        Some((ms, q)) => if q > p {
                            match file_walk(d, q, io_size, seekable) {
                                Some(rest) => Some(ms + rest),
                                None => None,
                            }
                        } else {
                            None
                        },
                    }
                } else if box_end <= p {
                    None
                } else {
                    file_walk(d, box_end, io_size, seekable)
                }
            }
        }
    }
}

proof fn lemma_file_walk_moov(d: Seq<u8>, p: int, io_size: i64, seekable: bool, h: crate::format::mp4::boxes::BoxHeader)
    requires
        file_walk(d, p, io_size, seekable) is Some,
        crate::format::mp4::boxes::box_at(d, p, io_size) == Some(h),
        h.box_type@ == moov_tag(),
    ensures ({
        let mw = moov_walk(d, h.payload_offset as int, h.payload_offset + h.payload_size, io_size, seekable);
        &&& h.payload_offset + h.payload_size <= u64::MAX && seekable
        &&& mw matches Some((ms, q)) && file_walk(d, q, io_size, seekable) matches Some(rest)
            && file_walk(d, p, io_size, seekable)->0 == ms + rest
    }),
{
}

proof fn lemma_tracks_compose(c: Seq<TrackInfo>, b: Seq<TrackInfo>, a: Seq<TrackInfo>, m1: Seq<TrakModel>, m2: Seq<TrakModel>)
    requires tracks_of_models(b, a, m1), tracks_of_models(c, b, m2),
    ensures tracks_of_models(c, a, m1 + m2),
{
    assert(c.subrange(0, a.len() as int) =~= b.subrange(0, a.len() as int)) by {
        assert forall|i: int| 0 <= i < a.len() implies c[i] == b[i] by {
            assert(c.subrange(0, b.len() as int)[i] == b[i]);
        }
    }
    assert forall|i: int| 0 <= i < (m1 + m2).len() implies track_of_model((m1 + m2)[i], #[trigger] c[a.len() + i]) by {
        if i < m1.len() {
            assert(c.subrange(0, b.len() as int)[a.len() + i] == b[a.len() + i]);
            assert(track_of_model(m1[i], b[a.len() + i]));
        } else {
            assert(track_of_model(m2[i - m1.len()], c[b.len() + (i - m1.len())]));
        }
    }
}

/// The model of a successful trak walk.
pub open spec fn trak_model_of(w: Option<(TrakModel, int)>) -> TrakModel {
    match w { Some((m, _q)) => m, None => initial_trak() }
}

/// The models of a successful moov walk.
pub open spec fn walk_models(w: Option<(Seq<TrakModel>, int)>) -> Seq<TrakModel> {
    match w { Some((ms, _q)) => ms, None => Seq::empty() }
}

/// `ts` are the tracks of `ms`, in order, after the tracks `before`.
pub open spec fn tracks_of_models(ts: Seq<TrackInfo>, before: Seq<TrackInfo>, ms: Seq<TrakModel>) -> bool {
    &&& ts.len() == before.len() + ms.len()
    &&& ts.subrange(0, before.len() as int) == before
    &&& forall|i: int| 0 <= i < ms.len() ==> track_of_model(ms[i], #[trigger] ts[before.len() + i])
}

/// Every box header in the data ends at a position that 64 bits can hold.
pub open spec fn box_ends_fit(d: Seq<u8>, io_size: i64) -> bool {
    forall|q: int| #[trigger] crate::format::mp4::boxes::box_at(d, q, io_size) matches Some(h)
        ==> h.payload_offset + h.payload_size <= u64::MAX
}

/// `t` is the track of a `trak` box of the data: the walk of the box's
/// payload succeeds and gives `t`.
pub open spec fn track_in(d: Seq<u8>, io_size: i64, seekable: bool, t: TrackInfo) -> bool {
    exists|q: int| #![trigger crate::format::mp4::boxes::box_at(d, q, io_size)]
        match crate::format::mp4::boxes::box_at(d, q, io_size) {
            Some(h) => h.box_type@ == tag(0x74, 0x72, 0x61, 0x6b) && match trak_walk(d, h.payload_offset as int,
                h.payload_size as int, io_size, seekable) {
                Some(m) => track_of_model(m, t),
                None => false,
            },
            None => false,
        }
}

/// No box of the data sets a track's id, time scale, codec or picture: no
/// `tkhd`, `mdhd` or `stsd` box, and no `hdlr` box of a sound handler.
pub open spec fn no_header_boxes(d: Seq<u8>, io_size: i64) -> bool {
    forall|q: int| #[trigger] crate::format::mp4::boxes::box_at(d, q, io_size) matches Some(h) ==> {
        &&& h.box_type@ != tag(0x74, 0x6b, 0x68, 0x64)
        &&& h.box_type@ != tag(0x6d, 0x64, 0x68, 0x64)
        &&& h.box_type@ != tag(0x73, 0x74, 0x73, 0x64)
        &&& h.box_type@ == tag(0x68, 0x64, 0x6c, 0x72) && fits(d, h.payload_offset + 8, 4)
            ==> d.subrange(h.payload_offset + 8, h.payload_offset + 12) != tag(0x73, 0x6f, 0x75, 0x6e)
    }
}

/// The fields that only header boxes set are those of `m`, and the track
/// is video.
pub open spec fn same_header(m: TrakModel, m2: TrakModel) -> bool {
    &&& m2.track_id == m.track_id && m2.timescale == m.timescale && m2.codec_id == m.codec_id
    &&& m2.width == m.width && m2.height == m.height && !m2.is_audio
}

proof fn lemma_walk_keeps_header(d: Seq<u8>, p: int, end: int, m: TrakModel, size: i64, seekable: bool)
    requires no_header_boxes(d, size), !m.is_audio,
    ensures walk(d, p, end, m, size, seekable) matches Some((m2, _q)) ==> same_header(m, m2),
    decreases room(d.len(), p),
{
    if p >= end || p < 0 || d.len() > u64::MAX {
    } else {
        match crate::format::mp4::boxes::box_at(d, p, size) {
            None => {}
            Some(h) => {
                let box_end = h.payload_offset + h.payload_size;
                if box_end <= u64::MAX {
                    match trak_box_effect(d, h.payload_offset as int, h.box_type@, m, size) {
                        None => {}
                        Some((m1, rec)) => {
                            assert(same_header(m, m1));
                            if rec {
                                lemma_walk_keeps_header(d, h.payload_offset as int, box_end, m1, size, seekable);
                            }
                            let inner = if rec {
                                walk(d, h.payload_offset as int, box_end, m1, size, seekable)
                            } else {
                                Some((m1, 0int))
                            };
                            match inner {
                                None => {}
                                Some((m2, _q)) => {
                                    if seekable {
                                        lemma_walk_keeps_header(d, box_end, end, m2, size, seekable);
                                    }
                                }
                            }
                        }
                    }
                }
            }
        }
    }
}

/// A track whose boxes include no `tkhd`, `mdhd` or `stsd` box and no
/// `hdlr` box of a sound handler is read with the defaults: track id 0,
/// time scale 1000, no codec, 1920x1080 video, and the sample table built
/// from its `stsz`, `stco`/`co64`, `stts`, `stsc` and `stss` boxes.
pub proof fn law_trak_defaults(d: Seq<u8>, offset: int, size: int, io_size: i64, seekable: bool, t: TrackInfo)
    requires
        no_header_boxes(d, io_size),
        trak_walk(d, offset, size, io_size, seekable) matches Some(m) && track_of_model(m, t),
    ensures ({
        let m = trak_walk(d, offset, size, io_size, seekable)->0;
        &&& t.track_id == 0 && t.timescale == 1000 && t.codec_id == CodecId::NoCodec
        &&& t.params.media_type == MediaType::Video && t.params.width == 1920 && t.params.height == 1080
        &&& t.samples@.len() == m.sizes.len()
        &&& forall|i: int| 0 <= i < m.sizes.len() ==> #[trigger] t.samples@[i]
            == sample_at(m.sizes, m.offsets, m.runs, m.tab, m.sync, i)
    }),
{
    lemma_walk_keeps_header(d, offset, offset + size, initial_trak(), io_size, seekable);
}

/// The track of what the walk collected.
fn finish_track(st: TrakState) -> (r: Result<TrackInfo>)
    ensures
        r matches Ok(t) && track_from(st.track_id, st.timescale, st.codec_id, st.is_audio, st.width, st.height,
            st.sample_rate, st.channels, st.sample_sizes@, st.chunk_offsets@, st.sample_durations@,
            st.samples_per_chunk@, match st.sync_samples { Some(v) => Some(v@), None => None }, t),
{
    let samples = build_sample_table(
        st.sample_sizes.as_slice(), st.chunk_offsets.as_slice(), st.sample_durations.as_slice(),
        st.samples_per_chunk.as_slice(), &st.sync_samples,
    )?;
    let params = if st.is_audio {
        let sr = if st.sample_rate > 0 { st.sample_rate } else { 44100 };
        let ch = if st.channels > 0 { st.channels } else { 2 };
        CodecParameters::new_audio(st.codec_id, sr, ch)?
    } else {
        let w = if st.width > 0 { st.width } else { 1920 };
        let h = if st.height > 0 { st.height } else { 1080 };
        CodecParameters::new_video(st.codec_id, w, h)?
    };
    Ok(TrackInfo { track_id: st.track_id, timescale: st.timescale, codec_id: st.codec_id, params, samples })
}

/// Demuxer of MP4 files: reads the sample tables of the tracks in the
/// `moov` box, then the samples track by track.
pub struct Mp4Demuxer {
    tracks: Vec<TrackInfo>,
    current_track: usize,
    current_sample: usize,
}

impl Mp4Demuxer {
    /// The tracks read so far.
    pub closed spec fn spec_tracks(&self) -> Seq<TrackInfo> { self.tracks@ }
    /// The track being read.
    pub closed spec fn spec_current_track(&self) -> usize { self.current_track }
    /// The next sample of that track.
    pub closed spec fn spec_current_sample(&self) -> usize { self.current_sample }

    /// A demuxer that has read nothing.
    pub fn new() -> (r: Self)
        ensures r.spec_tracks().len() == 0, r.spec_current_track() == 0, r.spec_current_sample() == 0,
    {
        Mp4Demuxer { tracks: Vec::new(), current_track: 0, current_sample: 0 }
    }

    /// Reads the boxes of a `moov` payload, keeping each track that parses,
    /// in order (see [`moov_walk`]).
    fn parse_moov(&mut self, io: &mut IOContext, offset: u64, size: u64) -> (r: Result<()>)
        requires offset <= old(io).spec_data().len(),
        ensures
            same_source(&*old(io), &*final(io)),
            r is Ok ==> final(io).spec_pos() >= offset,
            final(self).spec_tracks().len() >= old(self).spec_tracks().len(),
            final(self).spec_tracks().subrange(0, old(self).spec_tracks().len() as int) == old(self).spec_tracks(),
            forall|i: int| old(self).spec_tracks().len() <= i < final(self).spec_tracks().len() ==> track_in(
                old(io).spec_data(), old(io).spec_size(), old(io).spec_seekable(), #[trigger] final(self).spec_tracks()[i]),
            final(self).spec_current_track() == old(self).spec_current_track(),
            final(self).spec_current_sample() == old(self).spec_current_sample(),
            offset + size > u64::MAX ==> r matches Err(Error::InvalidData(_)),
            offset + size <= u64::MAX && !old(io).spec_seekable() ==> r matches Err(Error::Unsupported(_)),
            !old(io).spec_seekable() ==> final(self).spec_tracks() == old(self).spec_tracks(),
            offset + size <= u64::MAX && old(io).spec_seekable() && box_ends_fit(old(io).spec_data(), old(io).spec_size())
                ==> r is Ok,
            offset + size <= u64::MAX ==> (moov_walk(old(io).spec_data(), offset as int, offset + size, old(io).spec_size(),
                old(io).spec_seekable()) matches Some((ms, q)) ==> r is Ok && final(io).spec_pos() == q
                && tracks_of_models(final(self).spec_tracks(), old(self).spec_tracks(), ms)),
    {
        let end = match offset.checked_add(size) {
            Some(e) => e,
            None => { return Err(Error::InvalidData(msg("box extends past the largest position"))); }
        };
        io.seek(offset)?;
        let ghost len = io.spec_data().len();
        let ghost d = io.spec_data();
        let ghost done: Seq<TrakModel> = Seq::empty();
        assert(self.tracks@.subrange(0, old(self).tracks@.len() as int) =~= old(self).tracks@);
        loop
            invariant
                same_source(&*old(io), &*io), len == io.spec_data().len(), offset <= len,
                io.spec_pos() >= offset, old(io).spec_seekable(), end == offset + size,
                d == old(io).spec_data(),
                tracks_of_models(self.tracks@, old(self).tracks@, done),
                moov_walk(d, offset as int, end as int, old(io).spec_size(), true) matches Some((ms, q)) ==>
                    (moov_walk(d, io.spec_pos() as int, end as int, old(io).spec_size(), true) matches Some((rest, q2))
                    && ms == done + rest && q == q2),
                self.tracks@.len() >= old(self).tracks@.len(),
                self.tracks@.subrange(0, old(self).tracks@.len() as int) == old(self).tracks@,
                forall|i: int| old(self).tracks@.len() <= i < self.tracks@.len() ==> track_in(
                    old(io).spec_data(), old(io).spec_size(), old(io).spec_seekable(), #[trigger] self.tracks@[i]),
                self.current_track == old(self).current_track, self.current_sample == old(self).current_sample,
            decreases room(len, io.spec_pos() as int),
        {
            let pos = io.position()?;
            if pos >= end {
                proof {
                    assert(done + Seq::<TrakModel>::empty() =~= done);
                }
                return Ok(());
            }
            let header = match read_box_header(io) {
                Ok(h) => h,
                Err(_) => {
                    proof {
                        assert(done + Seq::<TrakModel>::empty() =~= done);
                    }
                    return Ok(());
                }
            };
            if header.is_type(&[0x74, 0x72, 0x61, 0x6b]) {
                let ghost w = trak_walk_at(d, header.payload_offset as int, header.payload_size as int, old(io).spec_size(), true);
                if let Ok(track) = self.parse_trak(io, header.payload_offset, header.payload_size) {
                    let ghost before = self.tracks@;
                    let ghost done0 = done;
                    self.tracks.push(track);
                    proof {
                        done = done.push(trak_model_of(w));
                        assert(header.box_type@ =~= trak_tag());
                        assert(self.tracks@.subrange(0, old(self).tracks@.len() as int) =~= old(self).tracks@) by {
                            assert(before.subrange(0, old(self).tracks@.len() as int) == old(self).tracks@);
                        }
                        assert forall|i: int| 0 <= i < done.len() implies
                            track_of_model(done[i], #[trigger] self.tracks@[old(self).tracks@.len() + i]) by {
                            if i < done0.len() {
                                assert(self.tracks@[old(self).tracks@.len() + i] == before[old(self).tracks@.len() + i]);
                            }
                        }
                        if moov_walk(d, offset as int, end as int, old(io).spec_size(), true) is Some {
                            let rest = walk_models(moov_walk(d, pos as int, end as int, old(io).spec_size(), true));
                            let rest2 = walk_models(moov_walk(d, io.spec_pos() as int, end as int, old(io).spec_size(), true));
                            assert(rest == seq![trak_model_of(w)] + rest2);
                            assert(done0 + rest =~= done + rest2);
                        }
                    }
                    proof {
                        assert(header.box_type@ == tag(0x74, 0x72, 0x61, 0x6b));
                        assert(track_in(old(io).spec_data(), old(io).spec_size(), old(io).spec_seekable(), track));
                        assert forall|i: int| old(self).tracks@.len() <= i < self.tracks@.len() implies track_in(
                            old(io).spec_data(), old(io).spec_size(), old(io).spec_seekable(), #[trigger] self.tracks@[i]) by {
                            if i < before.len() { assert(self.tracks@[i] == before[i]); }
                        }
                        assert(self.tracks@.subrange(0, old(self).tracks@.len() as int) =~= old(self).tracks@);
                    }
                }
            } else {
                proof {
                    if header.box_type@ == trak_tag() {
                        assert(header.box_type@ =~= [0x74u8, 0x72, 0x61, 0x6b]@);
                    }
                }
                skip_box(io, &header)?;
            }
        }
    }

    /// Reads one track from a `trak` payload (see [`trak_walk`]).
    fn parse_trak(&self, io: &mut IOContext, offset: u64, size: u64) -> (r: Result<TrackInfo>)
        requires offset <= old(io).spec_data().len(), old(io).spec_pos() == offset,
        ensures
            same_source(&*old(io), &*final(io)),
            final(io).spec_pos() >= offset,
            ({
                let w = trak_walk(old(io).spec_data(), offset as int, size as int, old(io).spec_size(), old(io).spec_seekable());
                &&& r is Ok <==> w is Some
                &&& r matches Ok(t) ==> track_of_model(w->0, t)
                &&& r is Ok ==> (trak_walk_at(old(io).spec_data(), offset as int, size as int, old(io).spec_size(),
                    old(io).spec_seekable()) matches Some((_m, q)) && q == final(io).spec_pos())
            }),
    {
        let n = io.bytes().len();
        let end = match offset.checked_add(size) {
            Some(e) => e,
            None => { return Err(Error::InvalidData(msg("box extends past the largest position"))); }
        };
        io.seek(offset)?;
        let mut st = TrakState::new();
        parse_boxes(io, end, &mut st)?;
        finish_track(st)
    }
}

/// The sum of the durations of the first `k` samples, modulo 2^64.
pub open spec fn duration_sum(samples: Seq<SampleEntry>, k: int) -> nat
    decreases k,
{
    if k <= 0 { 0 } else { ((duration_sum(samples, k - 1) + samples[k - 1].duration) % 18446744073709551616) as nat }
}

/// The sum of the durations of the first `k` samples, as a wrapping 64-bit
/// signed value.
pub open spec fn pts_of(samples: Seq<SampleEntry>, k: int) -> i64
    decreases k,
{
    if k <= 0 { 0 } else { vstd::wrapping::i64_specs::wrapping_add(pts_of(samples, k - 1), samples[k - 1].duration as i64) }
}

/// `s` is the stream of track `t` at index `i`: its parameters, a time base
/// of one time-scale unit, its total duration and its sample count.
pub open spec fn stream_of_track(s: Stream, t: TrackInfo, i: int) -> bool {
    &&& s.index == i as u32
    &&& crate::codec::codec_par::same_params(s.params, t.params)
    &&& s.time_base.num == 1 && s.time_base.den == t.timescale as i32
    &&& s.duration == Some(duration_sum(t.samples@, t.samples@.len() as int) as i64)
    &&& s.nb_frames == Some(t.samples@.len() as u64)
}

/// The next sample at or after track `t`, sample `k`: the first track from
/// `t` on with a sample left, and that sample.
pub open spec fn next_sample(tracks: Seq<TrackInfo>, t: int, k: int) -> Option<(int, int)>
    decreases tracks.len() - t,
{
    if t < 0 || t >= tracks.len() { None }
    else if k < tracks[t].samples@.len() { Some((t, k)) }
    else { next_sample(tracks, t + 1, 0) }
}

/// Sample `p.1` of track `p.0` exists.
pub open spec fn valid_sample(tracks: Seq<TrackInfo>, p: (int, int)) -> bool {
    0 <= p.0 < tracks.len() && 0 <= p.1 < tracks[p.0].samples@.len()
}

/// Sample position `a` is `b` or comes after it, track by track.
pub open spec fn at_or_after(a: (int, int), b: (int, int)) -> bool {
    a.0 > b.0 || (a.0 == b.0 && a.1 >= b.1)
}

/// The next sample from a position is a sample at or after it, with no
/// sample between them; none means no sample at or after the position.
pub proof fn lemma_next_sample(tracks: Seq<TrackInfo>, t: int, k: int)
    requires 0 <= t, 0 <= k,
    ensures
        next_sample(tracks, t, k) matches Some((t2, k2)) ==> valid_sample(tracks, (t2, k2))
            && at_or_after((t2, k2), (t, k)) && (t2 > t ==> k2 == 0)
            && forall|a: int, b: int| valid_sample(tracks, (a, b)) && #[trigger] at_or_after((a, b), (t, k))
                ==> at_or_after((a, b), (t2, k2)),
        next_sample(tracks, t, k) is None ==> forall|a: int, b: int|
            valid_sample(tracks, (a, b)) ==> !#[trigger] at_or_after((a, b), (t, k)),
    decreases tracks.len() - t,
{
    if t < tracks.len() && k >= tracks[t].samples@.len() {
        lemma_next_sample(tracks, t + 1, 0);
        assert forall|a: int, b: int| valid_sample(tracks, (a, b)) && #[trigger] at_or_after((a, b), (t, k))
            implies at_or_after((a, b), (t + 1, 0)) by {}
    }
}

/// The samples that reads from track `t`, sample `k` on give, one after
/// another: each read takes the next sample and the one after it starts
/// past that sample.
pub open spec fn reads_from(tracks: Seq<TrackInfo>, t: int, k: int) -> Seq<(int, int)>
    decreases tracks.len() - t, (if 0 <= t < tracks.len() { tracks[t].samples@.len() - k } else { 0 }),
{
    if t < 0 || k < 0 {
        Seq::empty()
    } else {
        match next_sample(tracks, t, k) {
            None => Seq::empty(),
            Some((t2, k2)) => {
                proof { lemma_next_sample(tracks, t, k); }
                seq![(t2, k2)] + reads_from(tracks, t2, k2 + 1)
            }
        }
    }
}

proof fn lemma_reads_from(tracks: Seq<TrackInfo>, t: int, k: int)
    requires 0 <= t, 0 <= k,
    ensures ({
        let r = reads_from(tracks, t, k);
        &&& forall|i: int| 0 <= i < r.len() ==> valid_sample(tracks, #[trigger] r[i]) && at_or_after(r[i], (t, k))
        &&& forall|i: int, j: int| 0 <= i < j < r.len() ==> !at_or_after(#[trigger] r[i], #[trigger] r[j])
        &&& forall|a: int, b: int| valid_sample(tracks, (a, b)) && at_or_after((a, b), (t, k))
            ==> #[trigger] r.contains((a, b))
    }),
    decreases tracks.len() - t, (if 0 <= t < tracks.len() { tracks[t].samples@.len() - k } else { 0 }),
{
    lemma_next_sample(tracks, t, k);
    let r = reads_from(tracks, t, k);
    match next_sample(tracks, t, k) {
        None => {
            assert forall|a: int, b: int| valid_sample(tracks, (a, b)) && at_or_after((a, b), (t, k))
                implies #[trigger] r.contains((a, b)) by {
                assert(!at_or_after((a, b), (t, k)));
            }
        }
        Some((t2, k2)) => {
            lemma_reads_from(tracks, t2, k2 + 1);
            let rest = reads_from(tracks, t2, k2 + 1);
            assert(r == seq![(t2, k2)] + rest);
            assert forall|i: int| 0 <= i < r.len() implies valid_sample(tracks, #[trigger] r[i]) && at_or_after(r[i], (t, k)) by {
                if i > 0 { assert(r[i] == rest[i - 1]); }
            }
            assert forall|i: int, j: int| 0 <= i < j < r.len() implies !at_or_after(#[trigger] r[i], #[trigger] r[j]) by {
                assert(r[j] == rest[j - 1]);
                if i > 0 { assert(r[i] == rest[i - 1]); }
                else { assert(at_or_after(rest[j - 1], (t2, k2 + 1))); }
            }
            assert forall|a: int, b: int| valid_sample(tracks, (a, b)) && at_or_after((a, b), (t, k))
                implies #[trigger] r.contains((a, b)) by {
                assert(at_or_after((a, b), (t2, k2)));
                if a == t2 && b == k2 {
                    assert(r[0] == (a, b));
                } else {
                    assert(at_or_after((a, b), (t2, k2 + 1)));
                    assert(rest.contains((a, b)));
                    let i = choose|i: int| 0 <= i < rest.len() && rest[i] == (a, b);
                    assert(r[i + 1] == (a, b));
                }
            }
        }
    }
}

/// Read one after another from the start, a demuxer's packets are its
/// samples track by track, each track's in order: every sample once, none
/// twice, and each after the ones before it.
pub proof fn law_mp4_reads_in_order(tracks: Seq<TrackInfo>)
    ensures ({
        let r = reads_from(tracks, 0, 0);
        &&& forall|i: int| 0 <= i < r.len() ==> valid_sample(tracks, #[trigger] r[i])
        &&& forall|i: int, j: int| 0 <= i < j < r.len() ==> (#[trigger] r[i]).0 < (#[trigger] r[j]).0
            || (r[i].0 == r[j].0 && r[i].1 < r[j].1)
        &&& forall|a: int, b: int| valid_sample(tracks, (a, b)) ==> #[trigger] r.contains((a, b))
    }),
{
    lemma_reads_from(tracks, 0, 0);
    let r = reads_from(tracks, 0, 0);
    assert forall|i: int, j: int| 0 <= i < j < r.len() implies (#[trigger] r[i]).0 < (#[trigger] r[j]).0
        || (r[i].0 == r[j].0 && r[i].1 < r[j].1) by {
        assert(!at_or_after(r[i], r[j]));
    }
    assert forall|a: int, b: int| valid_sample(tracks, (a, b)) implies #[trigger] r.contains((a, b)) by {
        assert(at_or_after((a, b), (0, 0)));
    }
}

fn sum_durations(samples: &Vec<SampleEntry>, k: usize) -> (r: u64)
    requires k <= samples@.len(),
    ensures r == duration_sum(samples@, k as int),
{
    let mut t: u64 = 0;
    let mut i: usize = 0;
    while i < k
        invariant i <= k, k <= samples@.len(), t == duration_sum(samples@, i as int),
        decreases k - i,
    {
        t = t.wrapping_add(samples[i].duration as u64);
        i += 1;
    }
    t
}

fn pts_at(samples: &Vec<SampleEntry>, k: usize) -> (r: i64)
    requires k <= samples@.len(),
    ensures r == pts_of(samples@, k as int),
{
    let mut t: i64 = 0;
    let mut i: usize = 0;
    while i < k
        invariant i <= k, k <= samples@.len(), t == pts_of(samples@, i as int),
        decreases k - i,
    {
        t = t.wrapping_add(samples[i].duration as i64);
        i += 1;
    }
    t
}

impl Demuxer for Mp4Demuxer {
    fn name(&self) -> (r: &'static str)
        ensures r@ == "mp4"@,
    {
        "mp4"
    }

    /// Reads the top-level boxes, taking the tracks of each `moov` box's
    /// `trak` boxes in order (see [`file_walk`]); one stream per track.
    fn read_header(&mut self, io: &mut IOContext) -> (r: Result<DemuxHeader>)
        ensures
            same_source(&*old(io), &*final(io)),
            final(self).spec_tracks().len() >= old(self).spec_tracks().len(),
            final(self).spec_tracks().subrange(0, old(self).spec_tracks().len() as int) == old(self).spec_tracks(),
            forall|i: int| old(self).spec_tracks().len() <= i < final(self).spec_tracks().len() ==> track_in(
                old(io).spec_data(), old(io).spec_size(), old(io).spec_seekable(), #[trigger] final(self).spec_tracks()[i]),
            r matches Ok(h) ==> h.streams@.len() == final(self).spec_tracks().len() > 0
                && forall|i: int| 0 <= i < h.streams@.len() ==> #[trigger] stream_of_track(h.streams@[i], final(self).spec_tracks()[i], i),
            final(self).spec_tracks().len() == 0 ==> r is Err,
            file_walk(old(io).spec_data(), old(io).spec_pos() as int, old(io).spec_size(), old(io).spec_seekable())
                matches Some(ms) ==> tracks_of_models(final(self).spec_tracks(), old(self).spec_tracks(), ms)
                && (r is Ok <==> final(self).spec_tracks().len() > 0)
                && (final(self).spec_tracks().len() == 0 ==> r matches Err(Error::InvalidData(_))),
            old(io).spec_seekable() && box_ends_fit(old(io).spec_data(), old(io).spec_size())
                ==> (r is Ok <==> final(self).spec_tracks().len() > 0),
            old(io).spec_seekable() && box_ends_fit(old(io).spec_data(), old(io).spec_size())
                && final(self).spec_tracks().len() == 0 ==> r matches Err(Error::InvalidData(_)),
            !old(io).spec_seekable() && old(self).spec_tracks().len() == 0 ==> r is Err,
            final(self).spec_current_track() == old(self).spec_current_track(),
            final(self).spec_current_sample() == old(self).spec_current_sample(),
    {
        let ghost len = io.spec_data().len();
        let ghost d = io.spec_data();
        let ghost start = io.spec_pos() as int;
        let ghost done: Seq<TrakModel> = Seq::empty();
        assert(self.tracks@.subrange(0, old(self).tracks@.len() as int) =~= old(self).tracks@);
        assert(Seq::<TrakModel>::empty() + Seq::<TrakModel>::empty() =~= Seq::<TrakModel>::empty());
        loop
            invariant
                same_source(&*old(io), &*io), len == io.spec_data().len(),
                d == old(io).spec_data(), start == old(io).spec_pos(),
                file_walk(d, start, old(io).spec_size(), old(io).spec_seekable()) matches Some(ms) ==>
                    (file_walk(d, io.spec_pos() as int, old(io).spec_size(), old(io).spec_seekable()) matches Some(rest)
                    && ms == done + rest && tracks_of_models(self.tracks@, old(self).tracks@, done)),
                self.tracks@.len() >= old(self).tracks@.len(),
                self.tracks@.subrange(0, old(self).tracks@.len() as int) == old(self).tracks@,
                forall|i: int| old(self).tracks@.len() <= i < self.tracks@.len() ==> track_in(
                    old(io).spec_data(), old(io).spec_size(), old(io).spec_seekable(), #[trigger] self.tracks@[i]),
                !old(io).spec_seekable() ==> self.tracks@ == old(self).tracks@,
                self.current_track == old(self).current_track, self.current_sample == old(self).current_sample,
            ensures
                file_walk(d, start, old(io).spec_size(), old(io).spec_seekable()) matches Some(ms) ==>
                    tracks_of_models(self.tracks@, old(self).tracks@, ms),
                self.tracks@.len() >= old(self).tracks@.len(),
                self.tracks@.subrange(0, old(self).tracks@.len() as int) == old(self).tracks@,
                forall|i: int| old(self).tracks@.len() <= i < self.tracks@.len() ==> track_in(
                    old(io).spec_data(), old(io).spec_size(), old(io).spec_seekable(), #[trigger] self.tracks@[i]),
                !old(io).spec_seekable() ==> self.tracks@ == old(self).tracks@,
                self.current_track == old(self).current_track, self.current_sample == old(self).current_sample,
            decreases room(len, io.spec_pos() as int),
        {
            let ghost pos = io.spec_pos() as int;
            let header = match read_box_header(io) {
                Ok(h) => h,
                Err(_) => {
                    proof { assert(done + Seq::<TrakModel>::empty() =~= done); }
                    break;
                }
            };
            let ghost before = self.tracks@;
            if header.is_type(&[0x6d, 0x6f, 0x6f, 0x76]) {
                let ghost done0 = done;
                let res = self.parse_moov(io, header.payload_offset, header.payload_size);
                proof {
                    assert(header.box_type@ =~= moov_tag());
                    if file_walk(d, start, old(io).spec_size(), old(io).spec_seekable()) is Some {
                        let mw = moov_walk(d, header.payload_offset as int, header.payload_offset + header.payload_size,
                            old(io).spec_size(), old(io).spec_seekable());
                        lemma_file_walk_moov(d, pos, old(io).spec_size(), old(io).spec_seekable(), header);
                        lemma_tracks_compose(self.tracks@, before, old(self).tracks@, done0, walk_models(mw));
                        done = done0 + walk_models(mw);
                        let rest = file_walk(d, pos, old(io).spec_size(), old(io).spec_seekable())->0;
                        let rest2 = file_walk(d, io.spec_pos() as int, old(io).spec_size(), old(io).spec_seekable())->0;
                        assert(done0 + rest =~= done + rest2);
                    }
                }
                proof {
                    assert forall|i: int| old(self).tracks@.len() <= i < self.tracks@.len() implies track_in(
                        old(io).spec_data(), old(io).spec_size(), old(io).spec_seekable(), #[trigger] self.tracks@[i]) by {
                        if i < before.len() {
                            assert(self.tracks@.subrange(0, before.len() as int)[i] == before[i]);
                        }
                    }
                    assert(self.tracks@.subrange(0, old(self).tracks@.len() as int)
                        =~= before.subrange(0, old(self).tracks@.len() as int));
                }
                res?;
            } else {
                proof {
                    if header.box_type@ == moov_tag() {
                        assert(header.box_type@ =~= [0x6du8, 0x6f, 0x6f, 0x76]@);
                    }
                }
                skip_box(io, &header)?;
            }
        }
        let mut streams: Vec<Stream> = Vec::new();
        let mut idx: usize = 0;
        while idx < self.tracks.len()
            invariant
                idx <= self.tracks@.len(), streams@.len() == idx,
                forall|i: int| 0 <= i < idx ==> #[trigger] stream_of_track(streams@[i], self.tracks@[i], i),
            decreases self.tracks.len() - idx,
        {
            let track = &self.tracks[idx];
            let tb = Rational::new(1, #[verifier::truncate] (track.timescale as i32));
            let total = sum_durations(&track.samples, track.samples.len());
            let mut stream = Stream::new(#[verifier::truncate] (idx as u32), track.params.duplicate());
            stream.time_base = tb;
            stream.duration = Some(#[verifier::truncate] (total as i64));
            stream.nb_frames = Some(track.samples.len() as u64);
            streams.push(stream);
            idx += 1;
        }
        if streams.len() == 0 {
            return Err(Error::InvalidData(msg("no tracks found in MP4")));
        }
        Ok(DemuxHeader { streams, metadata: Metadata::new() })
    }

    /// The next sample, track by track in order: its bytes, its time stamp
    /// (the durations of the samples before it) and its sync flag.
    fn read_packet(&mut self, io: &mut IOContext) -> (r: Result<Packet>)
        ensures
            same_source(&*old(io), &*final(io)),
            final(self).spec_tracks() == old(self).spec_tracks(),
            next_sample(old(self).spec_tracks(), old(self).spec_current_track() as int,
                old(self).spec_current_sample() as int) is None ==> r == Err::<Packet, Error>(Error::Eof),
            next_sample(old(self).spec_tracks(), old(self).spec_current_track() as int,
                old(self).spec_current_sample() as int) matches Some((t, k)) ==> ({
                let track = old(self).spec_tracks()[t];
                let sample = track.samples@[k];
                &&& final(self).spec_current_track() == t
                &&& !old(io).spec_seekable() ==> (r matches Err(Error::Unsupported(_))) && final(self).spec_current_sample() == k
                &&& old(io).spec_seekable() && sample.offset + sample.size > old(io).spec_data().len()
                    ==> r == Err::<Packet, Error>(Error::Eof) && final(self).spec_current_sample() == k
                &&& old(io).spec_seekable() && sample.offset + sample.size <= old(io).spec_data().len()
                    ==> (r matches Ok(p)
                        && p.data@ == old(io).spec_data().subrange(sample.offset as int, sample.offset + sample.size)
                        && p.pts == Some(pts_of(track.samples@, k)) && p.dts == p.pts
                        && p.duration == Some(sample.duration as i64)
                        && p.stream_index == t as u32 && p.flags.keyframe == sample.is_sync
                        && p.time_base.num == 1 && p.time_base.den == track.timescale as i32
                        && final(self).spec_current_sample() == k + 1)
            }),
    {
        if self.tracks.len() == 0 {
            return Err(Error::Eof);
        }
        while self.current_track < self.tracks.len()
            invariant
                self.tracks@ == old(self).tracks@, *io == *old(io),
                next_sample(self.tracks@, self.current_track as int, self.current_sample as int)
                    == next_sample(old(self).tracks@, old(self).current_track as int, old(self).current_sample as int),
            decreases self.tracks.len() - self.current_track,
        {
            let ct = self.current_track;
            let cs = self.current_sample;
            if cs < self.tracks[ct].samples.len() {
                let track = &self.tracks[ct];
                let sample = track.samples[cs];
                io.seek(sample.offset)?;
                let data = io.read_bytes(sample.size as usize)?;
                let pts = pts_at(&track.samples, cs);
                let mut pkt = Packet::new(Buffer::from_vec(data));
                pkt.pts = Some(pts);
                pkt.dts = Some(pts);
                pkt.duration = Some(sample.duration as i64);
                pkt.stream_index = #[verifier::truncate] (ct as u32);
                pkt.flags.keyframe = sample.is_sync;
                pkt.time_base = Rational::new(1, #[verifier::truncate] (track.timescale as i32));
                self.current_sample = cs + 1;
                return Ok(pkt);
            }
            self.current_track = ct + 1;
            self.current_sample = 0;
        }
        Err(Error::Eof)
    }
}

impl Default for Mp4Demuxer {
    fn default() -> (r: Self)
        ensures r.spec_tracks().len() == 0, r.spec_current_track() == 0, r.spec_current_sample() == 0,
    {
        Self::new()
    }
}

} // verus!
