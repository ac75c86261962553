use vstd::prelude::*;
use crate::util::buffer::Buffer;
use crate::util::error::{Error, Result, msg};
use crate::util::frame::MediaType;
use crate::util::rational::Rational;
use crate::codec::codec::CodecId;
use crate::codec::codec_par::{CodecParameters, blank_params};
use crate::codec::packet::Packet;
use crate::format::demux::{DemuxHeader, Demuxer};
use crate::format::io::{IOContext, le_value, le_bytes, write_at, lemma_le_bytes_len, law_le_roundtrip, law_read_back_write, pow256};
use crate::format::metadata::Metadata;
use crate::format::mux::Muxer;
use crate::format::stream::Stream;

verus! {

/// The tag `RIFF`.
pub open spec fn riff_tag() -> Seq<u8> { seq![0x52u8, 0x49, 0x46, 0x46] }
/// The tag `WAVE`.
pub open spec fn wave_tag() -> Seq<u8> { seq![0x57u8, 0x41, 0x56, 0x45] }
/// The tag `fmt `.
pub open spec fn fmt_tag() -> Seq<u8> { seq![0x66u8, 0x6d, 0x74, 0x20] }
/// The tag `data`.
pub open spec fn data_tag() -> Seq<u8> { seq![0x64u8, 0x61, 0x74, 0x61] }

/// Format tag of integer PCM.
pub const WAVE_FORMAT_PCM: u16 = 1;
/// Format tag of IEEE float PCM.
pub const WAVE_FORMAT_IEEE_FLOAT: u16 = 3;

/// The codec of a WAV sample format, if supported.
pub open spec fn wav_codec(format_tag: u16, bits_per_sample: u16) -> Option<CodecId> {
    if format_tag == 1 && bits_per_sample == 8 { Some(CodecId::PcmU8) }
    else if format_tag == 1 && bits_per_sample == 16 { Some(CodecId::PcmS16Le) }
    else if format_tag == 3 && bits_per_sample == 32 { Some(CodecId::PcmF32Le) }
    else { None }
}

/// The WAV sample format (format tag, bits per sample) of a codec.
pub open spec fn wav_format(id: CodecId) -> Option<(u16, u16)> {
    match id {
        CodecId::PcmU8 => Some((1u16, 8u16)),
        CodecId::PcmS16Le => Some((1u16, 16u16)),
        CodecId::PcmF32Le => Some((3u16, 32u16)),
        _ => None,
    }
}

/// Map (format_tag, bits_per_sample) to CodecId.
fn wav_to_codec_id(format_tag: u16, bits_per_sample: u16) -> (r: Result<CodecId>)
    ensures
        wav_codec(format_tag, bits_per_sample) matches Some(c) ==> r == Ok::<CodecId, Error>(c),
        wav_codec(format_tag, bits_per_sample) is None ==> r matches Err(Error::Unsupported(_)),
{
    if format_tag == WAVE_FORMAT_PCM && bits_per_sample == 8 {
        Ok(CodecId::PcmU8)
    } else if format_tag == WAVE_FORMAT_PCM && bits_per_sample == 16 {
        Ok(CodecId::PcmS16Le)
    } else if format_tag == WAVE_FORMAT_IEEE_FLOAT && bits_per_sample == 32 {
        Ok(CodecId::PcmF32Le)
    } else {
        Err(Error::Unsupported(msg("WAV format tag and sample size not supported")))
    }
}

fn codec_id_to_wav(id: CodecId) -> (r: Result<(u16, u16)>)
    ensures
        wav_format(id) matches Some(f) ==> r == Ok::<(u16, u16), Error>(f),
        wav_format(id) is None ==> r matches Err(Error::Unsupported(_)),
{
    match id {
        CodecId::PcmU8 => Ok((WAVE_FORMAT_PCM, 8)),
        CodecId::PcmS16Le => Ok((WAVE_FORMAT_PCM, 16)),
        CodecId::PcmF32Le => Ok((WAVE_FORMAT_IEEE_FLOAT, 32)),
        _ => {
            let mut m = String::from_str("WAV doesn't support codec ");
            m.append(id.name());
            Err(Error::Unsupported(m))
        }
    }
}

/// The fields of a `fmt ` chunk.
#[derive(Debug, Clone, Copy, PartialEq, Eq, Structural)]
pub struct WavFmt {
    pub format_tag: u16,
    pub channels: u16,
    pub sample_rate: u32,
    pub byte_rate: u32,
    pub block_align: u16,
    pub bits_per_sample: u16,
}

/// How reading a WAV header ends.
pub enum WavScan {
    /// A read ran past the end of the data.
    Eof,
    /// Not a RIFF/WAVE file, or no `fmt ` chunk before the data.
    InvalidData,
    /// The `fmt ` chunk names an unsupported sample format.
    Unsupported,
    /// A `fmt ` chunk without sample rate or channels, or a chunk size that
    /// moves the position past the largest one.
    InvalidArgument,
    /// The chunks were read: the last `fmt ` chunk, the payload's offset and
    /// size when a `data` chunk was reached, and the position reached.
    Done { fmt: Option<WavFmt>, data: Option<(u64, u64)>, end_pos: u64 },
}

/// The `fmt ` fields at `q`.
pub open spec fn fmt_at(d: Seq<u8>, q: int) -> WavFmt {
    WavFmt {
        format_tag: le_value(d.subrange(q, q + 2)) as u16,
        channels: le_value(d.subrange(q + 2, q + 4)) as u16,
        sample_rate: le_value(d.subrange(q + 4, q + 8)) as u32,
        byte_rate: le_value(d.subrange(q + 8, q + 12)) as u32,
        block_align: le_value(d.subrange(q + 12, q + 14)) as u16,
        bits_per_sample: le_value(d.subrange(q + 14, q + 16)) as u16,
    }
}

/// Continue after a chunk of `size` bytes whose payload ends at `q`: one
/// pad byte follows an odd size.
pub open spec fn after_chunk(q: int, size: nat) -> int {
    if size % 2 == 1 { q + 1 } else { q }
}

/// The chunks of a WAV file from position `p`, with the last `fmt ` chunk
/// read so far: each chunk is an id and a 32-bit little-endian size; a
/// `fmt ` chunk is read (extra bytes skipped), a `data` chunk ends the
/// scan, any other chunk is skipped, and the data ending before a chunk id
/// ends the scan too.
pub open spec fn wav_chunks(d: Seq<u8>, p: int, fmt: Option<WavFmt>) -> WavScan
    decreases u64::MAX - p,
{
    if p < 0 || p > u64::MAX {
        WavScan::InvalidArgument
    } else if p + 4 > d.len() {
        WavScan::Done { fmt, data: None, end_pos: d.len() as u64 }
    } else if p + 8 > d.len() {
        WavScan::Eof
    } else {
        let id = d.subrange(p, p + 4);
        let size = le_value(d.subrange(p + 4, p + 8));
        let q = p + 8;
        if id == fmt_tag() {
            if q + 16 > d.len() {
                WavScan::Eof
            } else {
                let f = fmt_at(d, q);
                if wav_codec(f.format_tag, f.bits_per_sample) is None {
                    WavScan::Unsupported
                } else if f.sample_rate == 0 || f.channels == 0 {
                    WavScan::InvalidArgument
                } else {
                    let q2 = if size > 16 { q + size } else { q + 16 };
                    let q3 = after_chunk(q2, size);
                    if q2 > u64::MAX || q3 > u64::MAX { WavScan::InvalidArgument }
                    else { wav_chunks(d, q3, Some(f)) }
                }
            }
        } else if id == data_tag() {
            WavScan::Done { fmt, data: Some((q as u64, size as u64)), end_pos: q as u64 }
        } else {
            let q2 = q + size;
            let q3 = after_chunk(q2, size);
            if q2 > u64::MAX || q3 > u64::MAX { WavScan::InvalidArgument }
            else { wav_chunks(d, q3, fmt) }
        }
    }
}

/// A WAV header at `p`: `RIFF`, a size, `WAVE`, then chunks, of which one
/// must be a `fmt ` chunk.
pub open spec fn wav_header(d: Seq<u8>, p: int) -> WavScan {
    if p + 4 > d.len() {
        WavScan::Eof
    } else if d.subrange(p, p + 4) != riff_tag() {
        WavScan::InvalidData
    } else if p + 12 > d.len() {
        WavScan::Eof
    } else if d.subrange(p + 8, p + 12) != wave_tag() {
        WavScan::InvalidData
    } else {
        match wav_chunks(d, p + 12, None) {
            WavScan::Done { fmt: None, .. } => WavScan::InvalidData,
            s => s,
        }
    }
}

/// Whether the bytes are `t`.
fn tag_is(b: &[u8], t: &[u8; 4]) -> (r: bool)
    requires b@.len() == 4,
    ensures r == (b@ == t@),
{
    let r = b[0] == t[0] && b[1] == t[1] && b[2] == t[2] && b[3] == t[3];
    proof { if r { assert(b@ =~= t@); } }
    r
}

// ────────────────────────────────────────────────────────────────────────────
// WAV Demuxer
// ────────────────────────────────────────────────────────────────────────────

/// Reader of RIFF/WAVE files holding PCM audio.
pub struct WavDemuxer {
    data_offset: u64,
    data_size: u64,
    data_read: u64,
    block_align: u16,
}

impl WavDemuxer {
    /// Where the sample data starts.
    pub closed spec fn spec_data_offset(&self) -> u64 { self.data_offset }
    /// Bytes of sample data.
    pub closed spec fn spec_data_size(&self) -> u64 { self.data_size }
    /// Bytes of sample data read so far.
    pub closed spec fn spec_data_read(&self) -> u64 { self.data_read }
    /// Bytes per sample frame.
    pub closed spec fn spec_block_align(&self) -> u16 { self.block_align }

    /// A demuxer that has read nothing.
    pub fn new() -> (r: Self)
        ensures r.spec_data_offset() == 0, r.spec_data_size() == 0, r.spec_data_read() == 0,
            r.spec_block_align() == 0,
    {
        WavDemuxer { data_offset: 0, data_size: 0, data_read: 0, block_align: 0 }
    }

    /// Reads the chunks from the position on (see [`wav_chunks`]).
    fn read_chunks(&mut self, io: &mut IOContext) -> (r: Result<(Option<WavFmt>, bool)>)
        ensures
            ({
                let s = wav_chunks(old(io).spec_data(), old(io).spec_pos() as int, None);
                &&& s is Eof ==> r == Err::<(Option<WavFmt>, bool), Error>(Error::Eof)
                &&& s is Unsupported ==> (r matches Err(Error::Unsupported(_)))
                &&& s is InvalidArgument ==> (r matches Err(Error::InvalidArgument(_)))
                &&& s is InvalidData ==> false
                &&& s matches WavScan::Done { fmt, data, end_pos } ==> r == Ok::<(Option<WavFmt>, bool), Error>((fmt, data is Some))
                    && final(io).spec_pos() == end_pos
                    && (fmt matches Some(f) ==> final(self).spec_block_align() == f.block_align
                        && wav_codec(f.format_tag, f.bits_per_sample) is Some && f.sample_rate != 0 && f.channels != 0)
                    && (fmt is None ==> final(self).spec_block_align() == old(self).spec_block_align())
                    && (data matches Some(x) ==> final(self).spec_data_offset() == x.0 && final(self).spec_data_size() == x.1)
                    && (data is None ==> final(self).spec_data_offset() == old(self).spec_data_offset()
                        && final(self).spec_data_size() == old(self).spec_data_size())
            }),
            final(io).spec_data() == old(io).spec_data(),
            final(io).spec_seekable() == old(io).spec_seekable(),
            final(io).spec_size() == old(io).spec_size(),
            final(self).spec_data_read() == old(self).spec_data_read(),
    {
        let ghost d = io.spec_data();
        let ghost outcome = wav_chunks(d, io.spec_pos() as int, None);
        let mut fmt: Option<WavFmt> = None;
        loop
            invariant
                d == old(io).spec_data(),
                outcome == wav_chunks(old(io).spec_data(), old(io).spec_pos() as int, None),
                io.spec_data() == d, io.spec_seekable() == old(io).spec_seekable(),
                io.spec_size() == old(io).spec_size(),
                wav_chunks(d, io.spec_pos() as int, fmt) == outcome,
                self.data_read == old(self).data_read,
                fmt matches Some(f) ==> self.block_align == f.block_align
                    && wav_codec(f.format_tag, f.bits_per_sample) is Some && f.sample_rate != 0 && f.channels != 0,
                fmt is None ==> self.block_align == old(self).block_align,
                self.data_offset == old(self).data_offset, self.data_size == old(self).data_size,
            decreases u64::MAX - io.spec_pos(),
        {
            let ghost p = io.spec_pos();
            let chunk_id = match io.read_bytes(4) {
                Ok(id) => id,
                Err(_) => { return Ok((fmt, false)); }
            };
            let chunk_size = io.read_u32_le()?;
            proof { assert(d.subrange(p + 4, p + 8) == d.subrange(p + 4, p + 8)); }
            if tag_is(chunk_id.as_slice(), &[0x66u8, 0x6d, 0x74, 0x20]) {
                proof { assert([0x66u8, 0x6d, 0x74, 0x20]@ =~= fmt_tag()); }
                let ghost q = io.spec_pos();
                let format_tag = io.read_u16_le()?;
                let channels = io.read_u16_le()?;
                let sample_rate = io.read_u32_le()?;
                let byte_rate = io.read_u32_le()?;
                let block_align = io.read_u16_le()?;
                let bits_per_sample = io.read_u16_le()?;
                let f = WavFmt { format_tag, channels, sample_rate, byte_rate, block_align, bits_per_sample };
                proof {
                    assert(d.subrange(q as int, q + 2) == d.subrange(q as int, q + 2));
                    assert(f == fmt_at(d, q as int));
                }
                let _codec_id = wav_to_codec_id(format_tag, bits_per_sample)?;
                if sample_rate == 0 || channels == 0 {
                    return Err(Error::InvalidArgument(msg("sample rate and channels must be > 0")));
                }
                self.block_align = block_align;
                fmt = Some(f);
                if chunk_size > 16 {
                    io.skip((chunk_size - 16) as i64)?;
                }
            } else if tag_is(chunk_id.as_slice(), &[0x64u8, 0x61, 0x74, 0x61]) {
                proof {
                    assert([0x64u8, 0x61, 0x74, 0x61]@ =~= data_tag());
                    assert([0x66u8, 0x6d, 0x74, 0x20]@ =~= fmt_tag());
                }
                self.data_offset = io.position()?;
                self.data_size = chunk_size as u64;
                return Ok((fmt, true));
            } else {
                proof {
                    assert([0x64u8, 0x61, 0x74, 0x61]@ =~= data_tag());
                    assert([0x66u8, 0x6d, 0x74, 0x20]@ =~= fmt_tag());
                }
                io.skip(chunk_size as i64)?;
            }
            if chunk_size % 2 != 0 {
                io.skip(1)?;
            }
        }
    }
}

impl Default for WavDemuxer {
    fn default() -> (r: Self)
        ensures r.spec_data_offset() == 0, r.spec_data_size() == 0, r.spec_data_read() == 0,
            r.spec_block_align() == 0,
    {
        Self::new()
    }
}

/// `h` is what a WAV header gives: one audio stream of the codec of `f`
/// with its rate, channels and bit rate, a time base of one sample, and a
/// duration of the data's whole sample frames when frames have a size.
pub open spec fn wav_stream_ok(h: DemuxHeader, f: WavFmt, data_size: u64) -> bool {
    &&& h.streams@.len() == 1
    &&& h.metadata.tags.view().len() == 0 && h.metadata.chapters@.len() == 0 && h.metadata.attachments@.len() == 0
    &&& {
        let st = h.streams@[0];
        &&& st.index == 0
        &&& wav_codec(f.format_tag, f.bits_per_sample) == Some(st.params.codec_id)
        &&& st.params.media_type == MediaType::Audio
        &&& st.params.sample_rate == f.sample_rate && st.params.channels == f.channels
        &&& st.params.bit_rate == f.byte_rate as u64 * 8
        &&& st.params.width == 0 && st.params.height == 0
        &&& st.time_base.num == 1 && st.time_base.den == f.sample_rate as i32
        &&& st.duration == (if f.block_align > 0 { Some((data_size / f.block_align as u64) as i64) } else { None })
        &&& st.nb_frames is None
    }
}

/// The packet that reading `n` bytes of sample data gives when `read`
/// bytes were read before.
pub open spec fn wav_packet_ok(p: Packet, bytes: Seq<u8>, read: u64, block_align: u16) -> bool {
    &&& p.data@ == bytes
    &&& p.pts == (if block_align > 0 { Some((read / block_align as u64) as i64) } else { None })
    &&& p.dts == p.pts
    &&& p.duration == Some(if block_align > 0 { (bytes.len() / block_align as nat) as i64 } else { 0i64 })
    &&& p.stream_index == 0 && p.side_data@.len() == 0
}

/// Bytes of the next packet: up to 4096 sample frames, no more than is left.
pub open spec fn wav_packet_len(d: WavDemuxer) -> nat {
    let max = 4096 * d.spec_block_align();
    let left = d.spec_data_size() - d.spec_data_read();
    if max < left { max as nat } else { left as nat }
}

impl Demuxer for WavDemuxer {
    fn name(&self) -> (r: &'static str)
        ensures r@ == "wav"@,
    {
        "wav"
    }

    /// Read the RIFF header and the chunks up to the sample data.
    fn read_header(&mut self, io: &mut IOContext) -> (r: Result<DemuxHeader>)
        ensures
            ({
                let s = wav_header(old(io).spec_data(), old(io).spec_pos() as int);
                &&& s is Eof ==> r == Err::<DemuxHeader, Error>(Error::Eof)
                &&& s is InvalidData ==> (r matches Err(Error::InvalidData(_)))
                &&& s is Unsupported ==> (r matches Err(Error::Unsupported(_)))
                &&& s is InvalidArgument ==> (r matches Err(Error::InvalidArgument(_)))
                &&& s matches WavScan::Done { fmt: Some(f), data, end_pos } ==> (r matches Ok(h)
                    && wav_stream_ok(h, f, match data { Some(x) => x.1, None => old(self).spec_data_size() })
                    && final(io).spec_pos() == end_pos
                    && final(self).spec_block_align() == f.block_align
                    && final(self).spec_data_read() == old(self).spec_data_read()
                    && (data matches Some(x) ==> final(self).spec_data_offset() == x.0 && final(self).spec_data_size() == x.1)
                    && (data is None ==> final(self).spec_data_offset() == old(self).spec_data_offset()
                        && final(self).spec_data_size() == old(self).spec_data_size()))
            }),
            final(io).spec_data() == old(io).spec_data(),
            final(io).spec_seekable() == old(io).spec_seekable(),
            final(io).spec_size() == old(io).spec_size(),
    {
        let mut tag = [0u8; 4];
        io.read_exact(&mut tag)?;
        if !tag_is(&tag, &[0x52u8, 0x49, 0x46, 0x46]) {
            proof { assert([0x52u8, 0x49, 0x46, 0x46]@ =~= riff_tag()); }
            return Err(Error::InvalidData(msg("not a RIFF file")));
        }
        proof { assert([0x52u8, 0x49, 0x46, 0x46]@ =~= riff_tag()); }
        let _file_size = io.read_u32_le()?;
        io.read_exact(&mut tag)?;
        if !tag_is(&tag, &[0x57u8, 0x41, 0x56, 0x45]) {
            proof { assert([0x57u8, 0x41, 0x56, 0x45]@ =~= wave_tag()); }
            return Err(Error::InvalidData(msg("not a WAVE file")));
        }
        proof { assert([0x57u8, 0x41, 0x56, 0x45]@ =~= wave_tag()); }
        let (fmt, _found_data) = self.read_chunks(io)?;
        let f = match fmt {
            Some(f) => f,
            None => { return Err(Error::InvalidData(msg("missing fmt chunk"))); }
        };
        let codec_id = wav_to_codec_id(f.format_tag, f.bits_per_sample)?;
        let mut par = CodecParameters::new_audio(codec_id, f.sample_rate, f.channels)?;
        par.bit_rate = (f.byte_rate as u64) * 8;
        let time_base = Rational::new(1, #[verifier::truncate] (f.sample_rate as i32));
        let duration = if self.block_align > 0 {
            Some(#[verifier::truncate] ((self.data_size / self.block_align as u64) as i64))
        } else {
            None
        };
        let mut stream = Stream::new(0, par);
        stream.time_base = time_base;
        stream.duration = duration;
        let mut streams: Vec<Stream> = Vec::new();
        streams.push(stream);
        Ok(DemuxHeader { streams, metadata: Metadata::new() })
    }

    /// The next run of sample data: up to 4096 sample frames, stamped with
    /// the number of frames before it.
    fn read_packet(&mut self, io: &mut IOContext) -> (r: Result<Packet>)
        ensures
            old(self).spec_data_read() >= old(self).spec_data_size() || wav_packet_len(*old(self)) == 0
                ==> r == Err::<Packet, Error>(Error::Eof) && *final(self) == *old(self) && *final(io) == *old(io),
            old(self).spec_data_read() < old(self).spec_data_size() && wav_packet_len(*old(self)) > 0 ==> ({
                let n = wav_packet_len(*old(self));
                &&& old(io).read_step(&*final(io), n)
                &&& old(io).spec_read(n) is None ==> r == Err::<Packet, Error>(Error::Eof) && *final(self) == *old(self)
                &&& old(io).spec_read(n) matches Some(b) ==> (r matches Ok(p)
                    && wav_packet_ok(p, b, old(self).spec_data_read(), old(self).spec_block_align())
                    && final(self).spec_data_read() == old(self).spec_data_read() + n)
            }),
            final(self).spec_data_size() == old(self).spec_data_size(),
            final(self).spec_data_offset() == old(self).spec_data_offset(),
            final(self).spec_block_align() == old(self).spec_block_align(),
    {
        if self.data_read >= self.data_size {
            return Err(Error::Eof);
        }
        let max = 4096 * (self.block_align as u64);
        let left = self.data_size - self.data_read;
        let max_bytes = if max < left { max } else { left };
        if max_bytes == 0 {
            return Err(Error::Eof);
        }
        let data = io.read_bytes(max_bytes as usize)?;
        let nb_samples: i64 = if self.block_align > 0 {
            data.len() as i64 / self.block_align as i64
        } else {
            0
        };
        let pts = if self.block_align > 0 {
            Some((self.data_read / self.block_align as u64) as i64)
        } else {
            None
        };
        self.data_read = self.data_read + data.len() as u64;
        let mut pkt = Packet::new(Buffer::from_vec(data));
        pkt.pts = pts;
        pkt.dts = pts;
        pkt.duration = Some(nb_samples);
        pkt.stream_index = 0;
        Ok(pkt)
    }
}

/// Whether the first bytes are those of a RIFF/WAVE file.
pub open spec fn wav_probe_score(d: Seq<u8>) -> u32 {
    if d.len() >= 12 && d.subrange(0, 4) == riff_tag() && d.subrange(8, 12) == wave_tag() { 90 } else { 0 }
}

/// Probe function for WAV format: 90 for `RIFF....WAVE`, else 0.
pub fn probe(data: &[u8]) -> (r: u32)
    ensures r == wav_probe_score(data@),
{
    proof {
        assert([0x52u8, 0x49, 0x46, 0x46]@ =~= riff_tag());
        assert([0x57u8, 0x41, 0x56, 0x45]@ =~= wave_tag());
    }
    if data.len() >= 12 {
        let a = tag_is(slice_4(data, 0).as_slice(), &[0x52u8, 0x49, 0x46, 0x46]);
        let b = tag_is(slice_4(data, 8).as_slice(), &[0x57u8, 0x41, 0x56, 0x45]);
        if a && b { 90 } else { 0 }
    } else {
        0
    }
}

/// The four bytes at `at`.
fn slice_4(data: &[u8], at: usize) -> (r: Vec<u8>)
    requires at + 4 <= data@.len(),
    ensures r@ == data@.subrange(at as int, at + 4),
{
    let mut v: Vec<u8> = Vec::new();
    v.push(data[at]);
    v.push(data[at + 1]);
    v.push(data[at + 2]);
    v.push(data[at + 3]);
    assert(v@ =~= data@.subrange(at as int, at + 4));
    v
}

// ────────────────────────────────────────────────────────────────────────────
// WAV Muxer
// ────────────────────────────────────────────────────────────────────────────

/// The 44-byte header of a WAV file with size fields 0, to be patched by
/// the trailer.
#[verifier::opaque]
pub open spec fn wav_header_bytes(format_tag: u16, channels: u16, sample_rate: u32, byte_rate: u32,
    block_align: u16, bits_per_sample: u16) -> Seq<u8>
{
    riff_tag() + le_bytes(0, 4) + wave_tag() + fmt_tag() + le_bytes(16, 4)
        + le_bytes(format_tag as nat, 2) + le_bytes(channels as nat, 2) + le_bytes(sample_rate as nat, 4)
        + le_bytes(byte_rate as nat, 4) + le_bytes(block_align as nat, 2) + le_bytes(bits_per_sample as nat, 2)
        + data_tag() + le_bytes(0, 4)
}

/// Bytes per sample frame of a stream, as the muxer computes it (16 bits,
/// wrapping).
pub open spec fn wav_block_align(channels: u16, bits_per_sample: u16) -> u16 {
    ((channels as int * (bits_per_sample / 8) as int) % 65536) as u16
}

/// Bytes per second of a stream, as the muxer computes it (32 bits,
/// wrapping).
pub open spec fn wav_byte_rate(sample_rate: u32, block_align: u16) -> u32 {
    ((sample_rate as int * block_align as int) % 4294967296) as u32
}

/// Writer of RIFF/WAVE files holding PCM audio.
pub struct WavMuxer {
    data_offset: u64,
    data_size: u64,
}

impl WavMuxer {
    /// Where the sample data starts.
    pub closed spec fn spec_data_offset(&self) -> u64 { self.data_offset }
    /// Bytes of sample data written.
    pub closed spec fn spec_data_size(&self) -> u64 { self.data_size }

    /// A muxer that has written nothing.
    pub fn new() -> (r: Self)
        ensures r.spec_data_offset() == 0, r.spec_data_size() == 0,
    {
        WavMuxer { data_offset: 0, data_size: 0 }
    }
}

impl Default for WavMuxer {
    fn default() -> (r: Self)
        ensures r.spec_data_offset() == 0, r.spec_data_size() == 0,
    {
        Self::new()
    }
}

fn push_le(out: &mut Vec<u8>, v: u32, width: usize)
    requires width == 2 || width == 4, width == 2 ==> v < 65536,
    ensures final(out)@ == old(out)@ + le_bytes(v as nat, width as nat),
{
    let ghost before = out@;
    out.push((v % 256) as u8);
    out.push((v / 256 % 256) as u8);
    if width == 4 {
        out.push((v / 65536 % 256) as u8);
        out.push((v / 16777216 % 256) as u8);
    }
    proof {
        reveal_with_fuel(le_bytes, 5);
        assert((v as nat / 256) / 256 == v as nat / 65536) by (nonlinear_arith);
        assert(((v as nat / 256) / 256) / 256 == v as nat / 16777216) by (nonlinear_arith);
        if width == 2 {
            assert(v as nat / 65536 == 0);
        }
        assert(out@ =~= before + le_bytes(v as nat, width as nat));
    }
}

fn push_tag(out: &mut Vec<u8>, t: &[u8; 4])
    ensures final(out)@ == old(out)@ + t@,
{
    let ghost before = out@;
    out.push(t[0]);
    out.push(t[1]);
    out.push(t[2]);
    out.push(t[3]);
    assert(out@ =~= before + t@);
}

/// The header bytes (see [`wav_header_bytes`]).
fn header_bytes(format_tag: u16, channels: u16, sample_rate: u32, byte_rate: u32,
    block_align: u16, bits_per_sample: u16) -> (r: Vec<u8>)
    ensures r@ == wav_header_bytes(format_tag, channels, sample_rate, byte_rate, block_align, bits_per_sample),
{
    let mut out: Vec<u8> = Vec::new();
    push_tag(&mut out, &[0x52u8, 0x49, 0x46, 0x46]);
    push_le(&mut out, 0, 4);
    push_tag(&mut out, &[0x57u8, 0x41, 0x56, 0x45]);
    push_tag(&mut out, &[0x66u8, 0x6d, 0x74, 0x20]);
    push_le(&mut out, 16, 4);
    push_le(&mut out, format_tag as u32, 2);
    push_le(&mut out, channels as u32, 2);
    push_le(&mut out, sample_rate, 4);
    push_le(&mut out, byte_rate, 4);
    push_le(&mut out, block_align as u32, 2);
    push_le(&mut out, bits_per_sample as u32, 2);
    push_tag(&mut out, &[0x64u8, 0x61, 0x74, 0x61]);
    push_le(&mut out, 0, 4);
    proof {
        assert([0x52u8, 0x49, 0x46, 0x46]@ =~= riff_tag());
        assert([0x57u8, 0x41, 0x56, 0x45]@ =~= wave_tag());
        assert([0x66u8, 0x6d, 0x74, 0x20]@ =~= fmt_tag());
        assert([0x64u8, 0x61, 0x74, 0x61]@ =~= data_tag());
        reveal(wav_header_bytes);
        assert(out@ =~= wav_header_bytes(format_tag, channels, sample_rate, byte_rate, block_align, bits_per_sample));
    }
    out
}

/// The stream a WAV file can hold: exactly one, of audio.
pub open spec fn wav_streams_ok(streams: Seq<Stream>) -> bool {
    streams.len() == 1 && streams[0].params.media_type == MediaType::Audio
}

impl Muxer for WavMuxer {
    fn name(&self) -> (r: &'static str)
        ensures r@ == "wav"@,
    {
        "wav"
    }

    /// Writes the 44-byte header for the one audio stream, with size fields
    /// 0 until the trailer.
    fn write_header(&mut self, io: &mut IOContext, streams: &[Stream]) -> (r: Result<()>)
        ensures
            !wav_streams_ok(streams@) ==> (r matches Err(Error::InvalidArgument(_))) && *final(io) == *old(io),
            wav_streams_ok(streams@) && wav_format(streams@[0].params.codec_id) is None
                ==> (r matches Err(Error::Unsupported(_))) && *final(io) == *old(io),
            wav_streams_ok(streams@) ==> (wav_format(streams@[0].params.codec_id) matches Some(fb) ==> ({
                let par = streams@[0].params;
                let ba = wav_block_align(par.channels, fb.1);
                let bytes = wav_header_bytes(fb.0, par.channels, par.sample_rate, wav_byte_rate(par.sample_rate, ba), ba, fb.1);
                &&& old(io).spec_pos() + 44 <= usize::MAX ==> r is Ok
                    && final(io).spec_data() == write_at(old(io).spec_data(), old(io).spec_pos() as nat, bytes)
                    && final(io).spec_pos() == old(io).spec_pos() + 44
                    && final(self).spec_data_offset() == old(io).spec_pos() + 44
                    && final(self).spec_data_size() == 0
                &&& old(io).spec_pos() + 44 > usize::MAX ==> (r matches Err(Error::InvalidArgument(_)))
            })),
            final(io).spec_seekable() == old(io).spec_seekable(),
            final(io).spec_size() == old(io).spec_size(),
    {
        if streams.len() != 1 || streams[0].params.media_type != MediaType::Audio {
            return Err(Error::InvalidArgument(msg("WAV requires exactly 1 audio stream")));
        }
        let par = &streams[0].params;
        let (format_tag, bits_per_sample) = codec_id_to_wav(par.codec_id)?;
        let channels = par.channels;
        let sample_rate = par.sample_rate;
        let block_align = channels.wrapping_mul(bits_per_sample / 8);
        let byte_rate = sample_rate.wrapping_mul(block_align as u32);
        let bytes = header_bytes(format_tag, channels, sample_rate, byte_rate, block_align, bits_per_sample);
        proof {
            lemma_header_parts(bytes@, format_tag, channels, sample_rate, byte_rate, block_align, bits_per_sample);
            assert(bytes@.len() == 44);
            assert(block_align == wav_block_align(channels, bits_per_sample));
            assert(byte_rate == wav_byte_rate(sample_rate, block_align));
        }
        io.write_all(bytes.as_slice())?;
        self.data_offset = io.position()?;
        self.data_size = 0;
        Ok(())
    }

    /// Appends the packet's bytes as sample data.
    fn write_packet(&mut self, io: &mut IOContext, packet: &Packet) -> (r: Result<()>)
        ensures
            old(io).spec_pos() + packet.data@.len() <= usize::MAX <==> r is Ok,
            r is Ok ==> final(io).spec_data() == write_at(old(io).spec_data(), old(io).spec_pos() as nat, packet.data@)
                && final(io).spec_pos() == old(io).spec_pos() + packet.data@.len()
                && final(self).spec_data_size() == (old(self).spec_data_size() + packet.data@.len()) % 18446744073709551616,
            r is Err ==> *final(io) == *old(io) && *final(self) == *old(self),
            final(self).spec_data_offset() == old(self).spec_data_offset(),
            final(io).spec_seekable() == old(io).spec_seekable(),
            final(io).spec_size() == old(io).spec_size(),
    {
        let data = packet.data.data();
        io.write_all(data)?;
        self.data_size = self.data_size.wrapping_add(data.len() as u64);
        Ok(())
    }

    /// Patches the RIFF size (the file's size less 8) and the data size into
    /// the header, each as 32 bits, and returns to the end.
    fn write_trailer(&mut self, io: &mut IOContext) -> (r: Result<()>)
        ensures
            !old(io).spec_seekable() ==> (r matches Err(Error::Unsupported(_))) && *final(io) == *old(io),
            old(io).spec_seekable() && wrap_sub(old(self).spec_data_offset(), 4) + 4 <= usize::MAX ==> ({
                let end = old(io).spec_pos();
                let patched = write_at(old(io).spec_data(), 4, le_bytes((wrap_sub(end, 8) % 4294967296) as nat, 4));
                &&& r is Ok
                &&& final(io).spec_data() == write_at(patched, wrap_sub(old(self).spec_data_offset(), 4) as nat,
                        le_bytes((old(self).spec_data_size() % 4294967296) as nat, 4))
                &&& final(io).spec_pos() == end
            }),
            old(io).spec_seekable() && wrap_sub(old(self).spec_data_offset(), 4) + 4 > usize::MAX
                ==> (r matches Err(Error::InvalidArgument(_))),
            final(io).spec_seekable() == old(io).spec_seekable(),
            final(io).spec_size() == old(io).spec_size(),
            *final(self) == *old(self),
    {
        let file_end = io.position()?;
        io.seek(4)?;
        let riff = file_end.wrapping_sub(8);
        io.write_u32_le((riff % 4294967296) as u32)?;
        io.seek(self.data_offset.wrapping_sub(4))?;
        io.write_u32_le((self.data_size % 4294967296) as u32)?;
        io.seek(file_end)?;
        Ok(())
    }
}

/// `a - b` modulo 2^64.
pub open spec fn wrap_sub(a: u64, b: u64) -> int {
    if a >= b { a - b } else { a - b + 18446744073709551616 }
}

proof fn lemma_header_parts(h: Seq<u8>, tag: u16, ch: u16, sr: u32, br: u32, ba: u16, bits: u16)
    requires h == wav_header_bytes(tag, ch, sr, br, ba, bits),
    ensures
        h.len() == 44,
        h.subrange(0, 4) == riff_tag(), h.subrange(8, 12) == wave_tag(),
        h.subrange(12, 16) == fmt_tag(), le_value(h.subrange(16, 20)) == 16,
        le_value(h.subrange(20, 22)) == tag, le_value(h.subrange(22, 24)) == ch,
        le_value(h.subrange(24, 28)) == sr, le_value(h.subrange(28, 32)) == br,
        le_value(h.subrange(32, 34)) == ba, le_value(h.subrange(34, 36)) == bits,
        h.subrange(36, 40) == data_tag(), le_value(h.subrange(40, 44)) == 0,
{
    reveal(wav_header_bytes);
    reveal_with_fuel(pow256, 5);
    lemma_le_bytes_len(0, 4);
    lemma_le_bytes_len(16, 4);
    lemma_le_bytes_len(tag as nat, 2);
    lemma_le_bytes_len(ch as nat, 2);
    lemma_le_bytes_len(sr as nat, 4);
    lemma_le_bytes_len(br as nat, 4);
    lemma_le_bytes_len(ba as nat, 2);
    lemma_le_bytes_len(bits as nat, 2);
    law_le_roundtrip(0, 4);
    law_le_roundtrip(16, 4);
    law_le_roundtrip(tag as nat, 2);
    law_le_roundtrip(ch as nat, 2);
    law_le_roundtrip(sr as nat, 4);
    law_le_roundtrip(br as nat, 4);
    law_le_roundtrip(ba as nat, 2);
    law_le_roundtrip(bits as nat, 2);
    assert(h.subrange(0, 4) =~= riff_tag());
    assert(h.subrange(8, 12) =~= wave_tag());
    assert(h.subrange(12, 16) =~= fmt_tag());
    assert(h.subrange(16, 20) =~= le_bytes(16, 4));
    assert(h.subrange(20, 22) =~= le_bytes(tag as nat, 2));
    assert(h.subrange(22, 24) =~= le_bytes(ch as nat, 2));
    assert(h.subrange(24, 28) =~= le_bytes(sr as nat, 4));
    assert(h.subrange(28, 32) =~= le_bytes(br as nat, 4));
    assert(h.subrange(32, 34) =~= le_bytes(ba as nat, 2));
    assert(h.subrange(34, 36) =~= le_bytes(bits as nat, 2));
    assert(h.subrange(36, 40) =~= data_tag());
    assert(h.subrange(40, 44) =~= le_bytes(0, 4));
}

proof fn lemma_chunks_of_header(dd: Seq<u8>, q: int, f: WavFmt, size: u64)
    requires
        0 <= q, q + 44 <= dd.len(), q + 44 <= u64::MAX,
        dd.subrange(q + 12, q + 16) == fmt_tag(), le_value(dd.subrange(q + 16, q + 20)) == 16,
        fmt_at(dd, q + 20) == f, wav_codec(f.format_tag, f.bits_per_sample) is Some,
        f.sample_rate != 0, f.channels != 0,
        dd.subrange(q + 36, q + 40) == data_tag(), le_value(dd.subrange(q + 40, q + 44)) == size,
    ensures
        wav_chunks(dd, q + 12, None)
            == (WavScan::Done { fmt: Some(f), data: Some(((q + 44) as u64, size)), end_pos: (q + 44) as u64 }),
{
    assert(fmt_tag() != data_tag()) by { assert(fmt_tag()[0] != data_tag()[0]); }
    assert(wav_chunks(dd, q + 36, Some(f))
        == (WavScan::Done { fmt: Some(f), data: Some(((q + 44) as u64, size)), end_pos: (q + 44) as u64 }));
}

/// What the muxer writes, the demuxer reads back: a WAV header written at
/// `p` for a supported sample format, with a sample rate and channels, is
/// read as that format, with an empty data chunk right after it.
pub proof fn law_wav_header_roundtrip(d: Seq<u8>, p: nat, tag: u16, ch: u16, sr: u32, br: u32, ba: u16, bits: u16)
    requires
        wav_codec(tag, bits) is Some, sr != 0, ch != 0, p + 44 <= u64::MAX,
    ensures
        wav_header(write_at(d, p, wav_header_bytes(tag, ch, sr, br, ba, bits)), p as int)
            == (WavScan::Done {
                fmt: Some(WavFmt { format_tag: tag, channels: ch, sample_rate: sr, byte_rate: br,
                    block_align: ba, bits_per_sample: bits }),
                data: Some(((p + 44) as u64, 0u64)),
                end_pos: (p + 44) as u64,
            }),
{
    let q: int = p as int;
    let h = wav_header_bytes(tag, ch, sr, br, ba, bits);
    lemma_header_parts(h, tag, ch, sr, br, ba, bits);
    let dd = write_at(d, p, h);
    law_read_back_write(d, p, h);
    let w = dd.subrange(q, q + 44);
    assert(w == h);
    assert(dd.subrange(q, q + 4) =~= h.subrange(0, 4));
    assert(dd.subrange(q + 8, q + 12) =~= h.subrange(8, 12));
    assert(dd.subrange(q + 12, q + 16) =~= h.subrange(12, 16));
    assert(dd.subrange(q + 16, q + 20) =~= h.subrange(16, 20));
    assert(dd.subrange(q + 20, q + 22) =~= h.subrange(20, 22));
    assert(dd.subrange(q + 22, q + 24) =~= h.subrange(22, 24));
    assert(dd.subrange(q + 24, q + 28) =~= h.subrange(24, 28));
    assert(dd.subrange(q + 28, q + 32) =~= h.subrange(28, 32));
    assert(dd.subrange(q + 32, q + 34) =~= h.subrange(32, 34));
    assert(dd.subrange(q + 34, q + 36) =~= h.subrange(34, 36));
    assert(dd.subrange(q + 36, q + 40) =~= h.subrange(36, 40));
    assert(dd.subrange(q + 40, q + 44) =~= h.subrange(40, 44));
    let f = WavFmt { format_tag: tag, channels: ch, sample_rate: sr, byte_rate: br, block_align: ba, bits_per_sample: bits };
    assert(fmt_at(dd, q + 20) == f);
    lemma_chunks_of_header(dd, q, f, 0);
}

/// A WAV file as the muxer leaves it when it starts from empty data: the
/// header, the sample data right after it, and the RIFF size and the data
/// size patched in by the trailer.
pub open spec fn wav_file(header: Seq<u8>, payload: Seq<u8>) -> Seq<u8> {
    let body = write_at(write_at(Seq::<u8>::empty(), 0, header), 44, payload);
    let end: nat = 44 + payload.len();
    let riff = write_at(body, 4, le_bytes(((end - 8) % 4294967296) as nat, 4));
    write_at(riff, 40, le_bytes((payload.len() % 4294967296) as nat, 4))
}

/// What the muxer writes, the demuxer reads back: a WAV file of a supported
/// sample format, with a sample rate and channels, and fewer than 2^32
/// bytes of sample data, is read as that format with a data chunk of
/// exactly those bytes, right after the header.
pub proof fn law_wav_file_roundtrip(payload: Seq<u8>, tag: u16, ch: u16, sr: u32, br: u32, ba: u16, bits: u16)
    requires
        wav_codec(tag, bits) is Some, sr != 0, ch != 0, payload.len() < 4294967296,
    ensures ({
        let file = wav_file(wav_header_bytes(tag, ch, sr, br, ba, bits), payload);
        &&& wav_header(file, 0) == (WavScan::Done {
                fmt: Some(WavFmt { format_tag: tag, channels: ch, sample_rate: sr, byte_rate: br,
                    block_align: ba, bits_per_sample: bits }),
                data: Some((44u64, payload.len() as u64)),
                end_pos: 44u64,
            })
        &&& file.subrange(44, 44 + payload.len() as int) == payload
    }),
{
    let h = wav_header_bytes(tag, ch, sr, br, ba, bits);
    lemma_header_parts(h, tag, ch, sr, br, ba, bits);
    let h0 = write_at(Seq::<u8>::empty(), 0, h);
    assert(h0 =~= h);
    let body = write_at(h0, 44, payload);
    let end: nat = 44 + payload.len();
    let rb = le_bytes(((end - 8) % 4294967296) as nat, 4);
    let sb = le_bytes((payload.len() % 4294967296) as nat, 4);
    lemma_le_bytes_len(((end - 8) % 4294967296) as nat, 4);
    lemma_le_bytes_len((payload.len() % 4294967296) as nat, 4);
    reveal_with_fuel(pow256, 5);
    law_le_roundtrip((payload.len() % 4294967296) as nat, 4);
    let riff = write_at(body, 4, rb);
    let file = write_at(riff, 40, sb);
    assert(file.len() == 44 + payload.len());
    // The header bytes outside the patched size fields are kept.
    assert forall|i: int| 0 <= i < 44 && !(4 <= i < 8) && !(40 <= i < 44) implies #[trigger] file[i] == h[i] by {}
    assert(file.subrange(0, 4) =~= h.subrange(0, 4));
    assert(file.subrange(8, 12) =~= h.subrange(8, 12));
    assert(file.subrange(12, 16) =~= h.subrange(12, 16));
    assert(file.subrange(16, 20) =~= h.subrange(16, 20));
    assert(file.subrange(20, 22) =~= h.subrange(20, 22));
    assert(file.subrange(22, 24) =~= h.subrange(22, 24));
    assert(file.subrange(24, 28) =~= h.subrange(24, 28));
    assert(file.subrange(28, 32) =~= h.subrange(28, 32));
    assert(file.subrange(32, 34) =~= h.subrange(32, 34));
    assert(file.subrange(34, 36) =~= h.subrange(34, 36));
    assert(file.subrange(36, 40) =~= h.subrange(36, 40));
    assert(file.subrange(40, 44) =~= sb);
    assert(file.subrange(44, 44 + payload.len() as int) =~= payload);
    let f = WavFmt { format_tag: tag, channels: ch, sample_rate: sr, byte_rate: br, block_align: ba, bits_per_sample: bits };
    assert(fmt_at(file, 20) == f);
    lemma_chunks_of_header(file, 0, f, payload.len() as u64);
}

/// Where each packet read from sample data of `size` bytes starts and how
/// many bytes it holds, when `read` bytes were read before and a packet
/// holds at most `max` bytes (see [`wav_packet_len`]).
pub open spec fn wav_reads(size: nat, read: nat, max: nat) -> Seq<(nat, nat)>
    decreases size - read,
{
    if read >= size || max == 0 {
        Seq::empty()
    } else {
        let n: nat = if max < size - read { max } else { (size - read) as nat };
        seq![(read, n)] + wav_reads(size, read + n, max)
    }
}

/// Read one after another, the packets of the sample data cover it
/// exactly: the first starts where reading stands, each starts where the
/// one before it ended, each holds at least one and at most `max` bytes,
/// and the last ends at the end of the data.
pub proof fn law_wav_reads_cover(size: nat, read: nat, max: nat)
    requires max > 0, read <= size,
    ensures ({
        let r = wav_reads(size, read, max);
        &&& r.len() == 0 <==> read == size
        &&& r.len() > 0 ==> r[0].0 == read && r[r.len() - 1].0 + r[r.len() - 1].1 == size
        &&& forall|i: int| 0 <= i < r.len() ==> 0 < (#[trigger] r[i]).1 <= max
        &&& forall|i: int| 0 <= i < r.len() - 1 ==> (#[trigger] r[i + 1]).0 == r[i].0 + r[i].1
    }),
    decreases size - read,
{
    if read < size {
        let n: nat = if max < size - read { max } else { (size - read) as nat };
        law_wav_reads_cover(size, read + n, max);
        let r = wav_reads(size, read, max);
        let rest = wav_reads(size, read + n, max);
        assert(r == seq![(read, n)] + rest);
        assert forall|i: int| 0 <= i < r.len() implies 0 < (#[trigger] r[i]).1 <= max by {
            if i > 0 { assert(r[i] == rest[i - 1]); }
        }
        assert forall|i: int| 0 <= i < r.len() - 1 implies (#[trigger] r[i + 1]).0 == r[i].0 + r[i].1 by {
            assert(r[i + 1] == rest[i]);
            if i > 0 {
                assert(r[i] == rest[i - 1]);
                assert(rest[(i - 1) + 1].0 == rest[i - 1].0 + rest[i - 1].1);
            } else {
                assert(r[0] == (read, n));
            }
        }
        if rest.len() > 0 {
            assert(r[r.len() - 1] == rest[rest.len() - 1]);
        }
    }
}

/// The packet a demuxer reads next is the first of [`wav_reads`] from where
/// it stands, with at most 4096 sample frames to a packet.
pub proof fn law_wav_packet_is_next_read(d: WavDemuxer)
    requires d.spec_data_read() < d.spec_data_size(), d.spec_block_align() > 0,
    ensures
        wav_reads(d.spec_data_size() as nat, d.spec_data_read() as nat, 4096 * d.spec_block_align() as nat)[0]
            == (d.spec_data_read() as nat, wav_packet_len(d)),
{
}

/// What the muxer writes for an audio stream of a WAV codec, from empty
/// data: its header (see [`WavMuxer`]'s `write_header`) followed by the
/// packets' bytes `payload`, with the trailer's size fields.
pub open spec fn wav_muxed(codec: CodecId, channels: u16, sample_rate: u32, payload: Seq<u8>) -> Seq<u8> {
    let fb = wav_format(codec)->0;
    let ba = wav_block_align(channels, fb.1);
    wav_file(wav_header_bytes(fb.0, channels, sample_rate, wav_byte_rate(sample_rate, ba), ba, fb.1), payload)
}

/// What the muxer writes, the demuxer reads back, over their calls: for an
/// audio stream of a WAV codec with a sample rate and channels, and fewer
/// than 2^32 bytes of packets, reading the header gives back the codec,
/// the rate, the channels and a data chunk of exactly the packets' bytes
/// right after the header (so a duration of the data's whole sample
/// frames), and the trailer's patches are what the muxer's `write_trailer`
/// writes after its header at 0 and the packets.
pub proof fn law_wav_mux_then_demux(codec: CodecId, channels: u16, sample_rate: u32, payload: Seq<u8>)
    requires
        wav_format(codec) is Some, sample_rate != 0, channels != 0, payload.len() < 4294967296,
    ensures ({
        let fb = wav_format(codec)->0;
        let ba = wav_block_align(channels, fb.1);
        let h = wav_header_bytes(fb.0, channels, sample_rate, wav_byte_rate(sample_rate, ba), ba, fb.1);
        let f = WavFmt { format_tag: fb.0, channels, sample_rate, byte_rate: wav_byte_rate(sample_rate, ba),
            block_align: ba, bits_per_sample: fb.1 };
        let file = wav_muxed(codec, channels, sample_rate, payload);
        let end: u64 = (44 + payload.len()) as u64;
        &&& file == write_at(write_at(write_at(write_at(Seq::<u8>::empty(), 0, h), 44, payload), 4,
                le_bytes((wrap_sub(end, 8) % 4294967296) as nat, 4)),
                wrap_sub(44, 4) as nat, le_bytes((payload.len() % 4294967296) as nat, 4))
        &&& wav_codec(f.format_tag, f.bits_per_sample) == Some(codec)
        &&& wav_header(file, 0) == (WavScan::Done { fmt: Some(f), data: Some((44u64, payload.len() as u64)), end_pos: 44u64 })
        &&& file.subrange(44, 44 + payload.len() as int) == payload
    }),
{
    let fb = wav_format(codec)->0;
    let ba = wav_block_align(channels, fb.1);
    law_wav_file_roundtrip(payload, fb.0, channels, sample_rate, wav_byte_rate(sample_rate, ba), ba, fb.1);
}

/// RIFF chunks are word aligned: a chunk other than `fmt ` and `data` is
/// skipped with its payload and, when its size is odd, the one pad byte
/// after it, so the scan goes on at the next chunk id; and a `data` chunk
/// ends the scan with its payload's offset and size. So a `data` chunk
/// right after an odd-sized chunk and its pad byte is found.
pub proof fn law_wav_chunk_padding(d: Seq<u8>, p: int, fmt: Option<WavFmt>)
    requires 0 <= p, p + 8 <= d.len(), p + 8 + le_value(d.subrange(p + 4, p + 8)) + 1 <= u64::MAX,
    ensures ({
        let id = d.subrange(p, p + 4);
        let size = le_value(d.subrange(p + 4, p + 8));
        let next = p + 8 + size + size % 2;
        &&& id != fmt_tag() && id != data_tag() ==> wav_chunks(d, p, fmt) == wav_chunks(d, next, fmt)
        &&& id == data_tag() ==> wav_chunks(d, p, fmt)
            == (WavScan::Done { fmt, data: Some(((p + 8) as u64, size as u64)), end_pos: (p + 8) as u64 })
    }),
{
    let size = le_value(d.subrange(p + 4, p + 8));
    assert(size % 2 == 0 || size % 2 == 1);
}

/// A `fmt ` chunk of a supported sample format, with a sample rate and
/// channels, is read from the 16 bytes after its header and the scan goes
/// on after its payload (at least 16 bytes; extra bytes are skipped) and
/// the pad byte of an odd size, with that format as the last one read.
pub proof fn law_wav_fmt_chunk(d: Seq<u8>, p: int, fmt: Option<WavFmt>)
    requires
        0 <= p, p + 24 <= d.len(), p + 8 + le_value(d.subrange(p + 4, p + 8)) + 17 <= u64::MAX,
        d.subrange(p, p + 4) == fmt_tag(),
        wav_codec(fmt_at(d, p + 8).format_tag, fmt_at(d, p + 8).bits_per_sample) is Some,
        fmt_at(d, p + 8).sample_rate != 0, fmt_at(d, p + 8).channels != 0,
    ensures ({
        let size = le_value(d.subrange(p + 4, p + 8));
        let payload = if size > 16 { size } else { 16 };
        let next = p + 8 + payload + size % 2;
        wav_chunks(d, p, fmt) == wav_chunks(d, next, Some(fmt_at(d, p + 8)))
    }),
{
}

} // verus!
