use justav::codec::codec::CodecId;
use justav::codec::codec_par::CodecParameters;
use justav::codec::packet::Packet;
use justav::format::context::{InputContext, OutputContext};
use justav::format::io::IOContext;
use justav::format::mp4;
use justav::format::mp4::boxes::{is_container_box, read_box_header, read_full_box_header, skip_box};
use justav::format::mp4::demux::Mp4Demuxer;
use justav::format::mp4::mux::{rle_durations, Mp4Muxer, SampleInfo};
use justav::format::mp4::table::build_sample_table;
use justav::format::stream::Stream;
use justav::format::wav::{self, WavDemuxer, WavMuxer};
use justav::util::buffer::Buffer;
use justav::util::error::Error;
use justav::util::rational::Rational;

// ── in-memory I/O ──

#[test]
fn memory_read_write() {
    let mut io = IOContext::memory_writer();
    io.write_u32_le(0xDEADBEEF).unwrap();
    io.seek(0).unwrap();
    assert_eq!(io.read_u32_le().unwrap(), 0xDEADBEEF);
}

#[test]
fn endian_roundtrip_le() {
    let mut io = IOContext::memory_writer();
    io.write_u16_le(0x1234).unwrap();
    io.write_u32_le(0xAABBCCDD).unwrap();
    io.write_u64_le(0x0102030405060708).unwrap();
    io.seek(0).unwrap();
    assert_eq!(io.read_u16_le().unwrap(), 0x1234);
    assert_eq!(io.read_u32_le().unwrap(), 0xAABBCCDD);
    assert_eq!(io.read_u64_le().unwrap(), 0x0102030405060708);
}

#[test]
fn endian_roundtrip_be() {
    let mut io = IOContext::memory_writer();
    io.write_u16_be(0x1234).unwrap();
    io.write_u32_be(0xAABBCCDD).unwrap();
    io.write_u64_be(0x0102030405060708).unwrap();
    io.seek(0).unwrap();
    assert_eq!(io.read_u16_be().unwrap(), 0x1234);
    assert_eq!(io.read_u32_be().unwrap(), 0xAABBCCDD);
    assert_eq!(io.read_u64_be().unwrap(), 0x0102030405060708);
}

#[test]
fn endian_byte_layout() {
    let mut io = IOContext::memory_writer();
    io.write_u32_le(0x11223344).unwrap();
    io.write_u16_be(0x5566).unwrap();
    assert_eq!(io.into_vec().unwrap(), vec![0x44, 0x33, 0x22, 0x11, 0x55, 0x66]);
}

#[test]
fn read_u8_and_bytes() {
    let data = vec![0x01, 0x02, 0x03, 0x04, 0x05];
    let mut io = IOContext::from_memory(data);
    assert_eq!(io.read_u8().unwrap(), 0x01);
    let rest = io.read_bytes(4).unwrap();
    assert_eq!(rest, vec![0x02, 0x03, 0x04, 0x05]);
}

#[test]
fn seek_and_position() {
    let data = vec![0u8; 100];
    let mut io = IOContext::from_memory(data);
    io.seek(50).unwrap();
    assert_eq!(io.position().unwrap(), 50);
    io.skip(10).unwrap();
    assert_eq!(io.position().unwrap(), 60);
}

#[test]
fn from_memory_size() {
    let io = IOContext::from_memory(vec![0u8; 256]);
    assert_eq!(io.size, 256);
    assert!(io.seekable);
}

#[test]
fn from_cursor() {
    let cursor = std::io::Cursor::new(vec![1u8, 2, 3]);
    let mut io = IOContext::from_memory(cursor.into_inner());
    assert!(io.seekable);
    assert_eq!(io.read_u8().unwrap(), 1);
}

#[test]
fn into_vec() {
    let mut io = IOContext::memory_writer();
    io.write_all(b"hello").unwrap();
    let data = io.into_vec().unwrap();
    assert_eq!(data, b"hello");
}

#[test]
fn overwrite_keeps_rest() {
    let mut io = IOContext::from_memory(vec![1, 2, 3, 4, 5]);
    io.seek(1).unwrap();
    io.write_all(&[9, 9]).unwrap();
    assert_eq!(io.position().unwrap(), 3);
    assert_eq!(io.into_vec().unwrap(), vec![1, 9, 9, 4, 5]);
}

#[test]
fn read_past_eof() {
    let mut io = IOContext::from_memory(vec![1, 2]);
    io.read_bytes(2).unwrap();
    assert!(io.read_u8().is_err());
}

#[test]
fn read_u32_insufficient_data() {
    let mut io = IOContext::from_memory(vec![1, 2]);
    assert!(io.read_u32_le().is_err());
}

#[test]
fn empty_memory() {
    let mut io = IOContext::from_memory(vec![]);
    assert_eq!(io.size, 0);
    assert!(io.read_u8().is_err());
}

#[test]
fn write_and_reread() {
    let mut io = IOContext::memory_writer();
    for i in 0u8..10 {
        io.write_u8(i).unwrap();
    }
    io.seek(0).unwrap();
    for i in 0u8..10 {
        assert_eq!(io.read_u8().unwrap(), i);
    }
}

// ── WAV ──

fn wav_output(params: CodecParameters) -> OutputContext {
    let stream = Stream::new(0, params);
    let mut out = OutputContext::new(IOContext::memory_writer(), Box::new(WavMuxer::new()));
    out.add_stream(stream);
    out
}

fn wav_input(bytes: Vec<u8>) -> InputContext {
    InputContext::new(IOContext::from_memory(bytes), Box::new(WavDemuxer::new()))
}

#[test]
fn wav_probe_valid() {
    let mut data = vec![0u8; 44];
    data[0..4].copy_from_slice(b"RIFF");
    data[8..12].copy_from_slice(b"WAVE");
    assert_eq!(wav::probe(&data), 90);
}

#[test]
fn wav_probe_invalid() {
    assert_eq!(wav::probe(b"NOT_RIFF_DATA_"), 0);
}

#[test]
fn wav_roundtrip_s16le() {
    let params = CodecParameters::new_audio(CodecId::PcmS16Le, 44100, 2).unwrap();
    let mut out = wav_output(params);
    out.write_header().unwrap();
    let pcm_data: Vec<u8> = (0..400).map(|i| (i % 256) as u8).collect();
    let pkt = Packet::new(Buffer::from_vec(pcm_data.clone()));
    out.write_packet(&pkt).unwrap();
    out.write_trailer().unwrap();

    let wav_bytes = out.into_io().into_vec().unwrap();
    assert!(wav_bytes.len() > 44);

    let mut input = wav_input(wav_bytes);
    input.open().unwrap();
    assert_eq!(input.nb_streams(), 1);
    assert_eq!(input.streams[0].params.codec_id, CodecId::PcmS16Le);
    assert_eq!(input.streams[0].params.sample_rate, 44100);
    assert_eq!(input.streams[0].params.channels, 2);

    let read_pkt = input.read_packet().unwrap();
    assert_eq!(read_pkt.data.data(), &pcm_data);
}

#[test]
fn wav_header_bytes() {
    let params = CodecParameters::new_audio(CodecId::PcmS16Le, 8000, 1).unwrap();
    let mut out = wav_output(params);
    out.write_header().unwrap();
    out.write_packet(&Packet::new(Buffer::from_vec(vec![1, 2, 3, 4]))).unwrap();
    out.write_trailer().unwrap();
    let b = out.into_io().into_vec().unwrap();
    assert_eq!(b.len(), 48);
    assert_eq!(&b[0..4], b"RIFF");
    assert_eq!(u32::from_le_bytes([b[4], b[5], b[6], b[7]]), 40);
    assert_eq!(&b[8..16], b"WAVEfmt ");
    assert_eq!(u16::from_le_bytes([b[20], b[21]]), 1);
    assert_eq!(u32::from_le_bytes([b[24], b[25], b[26], b[27]]), 8000);
    assert_eq!(u32::from_le_bytes([b[28], b[29], b[30], b[31]]), 16000);
    assert_eq!(u16::from_le_bytes([b[32], b[33]]), 2);
    assert_eq!(u16::from_le_bytes([b[34], b[35]]), 16);
    assert_eq!(&b[36..40], b"data");
    assert_eq!(u32::from_le_bytes([b[40], b[41], b[42], b[43]]), 4);
    assert_eq!(&b[44..48], &[1, 2, 3, 4]);
}

#[test]
fn wav_roundtrip_u8() {
    let params = CodecParameters::new_audio(CodecId::PcmU8, 8000, 1).unwrap();
    let mut out = wav_output(params);
    out.write_header().unwrap();
    let pcm_data = vec![128u8; 200];
    out.write_packet(&Packet::new(Buffer::from_vec(pcm_data.clone()))).unwrap();
    out.write_trailer().unwrap();

    let mut input = wav_input(out.into_io().into_vec().unwrap());
    input.open().unwrap();
    assert_eq!(input.streams[0].params.codec_id, CodecId::PcmU8);
    let read_pkt = input.read_packet().unwrap();
    assert_eq!(read_pkt.data.data(), &pcm_data);
}

#[test]
fn wav_roundtrip_f32le() {
    let params = CodecParameters::new_audio(CodecId::PcmF32Le, 48000, 2).unwrap();
    let mut out = wav_output(params);
    out.write_header().unwrap();
    let pcm_data = vec![0u8; 48000 * 2 * 4];
    out.write_packet(&Packet::new(Buffer::from_vec(pcm_data))).unwrap();
    out.write_trailer().unwrap();

    let mut input = wav_input(out.into_io().into_vec().unwrap());
    input.open().unwrap();
    assert_eq!(input.streams[0].params.codec_id, CodecId::PcmF32Le);
    assert_eq!(input.streams[0].params.sample_rate, 48000);
}

#[test]
fn wav_packet_pts() {
    let params = CodecParameters::new_audio(CodecId::PcmS16Le, 44100, 1).unwrap();
    let mut out = wav_output(params);
    out.write_header().unwrap();
    let pcm = vec![0u8; 200];
    out.write_packet(&Packet::new(Buffer::from_vec(pcm.clone()))).unwrap();
    out.write_packet(&Packet::new(Buffer::from_vec(pcm))).unwrap();
    out.write_trailer().unwrap();

    let mut input = wav_input(out.into_io().into_vec().unwrap());
    input.open().unwrap();
    let pkt1 = input.read_packet().unwrap();
    assert_eq!(pkt1.pts, Some(0));
}

#[test]
fn wav_eof_after_data() {
    let params = CodecParameters::new_audio(CodecId::PcmS16Le, 44100, 1).unwrap();
    let mut out = wav_output(params);
    out.write_header().unwrap();
    out.write_packet(&Packet::new(Buffer::from_vec(vec![0u8; 20]))).unwrap();
    out.write_trailer().unwrap();

    let mut input = wav_input(out.into_io().into_vec().unwrap());
    input.open().unwrap();
    let _pkt1 = input.read_packet().unwrap();
    assert!(matches!(input.read_packet(), Err(Error::Eof)));
}

#[test]
fn demux_not_riff() {
    let mut input = wav_input(b"NOT_RIFF_DATA_AT_ALL".to_vec());
    assert!(input.open().is_err());
}

#[test]
fn demux_riff_not_wave() {
    let mut data = vec![0u8; 12];
    data[0..4].copy_from_slice(b"RIFF");
    data[4..8].copy_from_slice(&100u32.to_le_bytes());
    data[8..12].copy_from_slice(b"AVI ");
    let mut input = wav_input(data);
    assert!(input.open().is_err());
}

#[test]
fn mux_no_streams() {
    let mut out = OutputContext::new(IOContext::memory_writer(), Box::new(WavMuxer::new()));
    assert!(out.write_header().is_err());
}

#[test]
fn mux_video_stream_rejected() {
    let params = CodecParameters::new_video(CodecId::H264, 1920, 1080).unwrap();
    let mut out = wav_output(params);
    assert!(out.write_header().is_err());
}

#[test]
fn mux_unsupported_codec() {
    let params = CodecParameters::new_audio(CodecId::Aac, 48000, 2).unwrap();
    let mut out = wav_output(params);
    assert!(out.write_header().is_err());
}

#[test]
fn demux_truncated_riff_header() {
    let mut input = wav_input(b"RIFF".to_vec());
    assert!(input.open().is_err());
}

#[test]
fn demux_riff_missing_fmt_chunk() {
    let mut data = Vec::new();
    data.extend_from_slice(b"RIFF");
    data.extend_from_slice(&100u32.to_le_bytes());
    data.extend_from_slice(b"WAVE");
    data.extend_from_slice(b"data");
    data.extend_from_slice(&20u32.to_le_bytes());
    data.extend_from_slice(&vec![0u8; 20]);
    let mut input = wav_input(data);
    assert!(input.open().is_err());
}

#[test]
fn demux_empty_data_chunk() {
    let params = CodecParameters::new_audio(CodecId::PcmS16Le, 44100, 1).unwrap();
    let mut out = wav_output(params);
    out.write_header().unwrap();
    out.write_trailer().unwrap();
    let mut input = wav_input(out.into_io().into_vec().unwrap());
    input.open().unwrap();
    assert!(matches!(input.read_packet(), Err(Error::Eof)));
}

// ── output and input contexts ──

#[test]
fn output_write_packet_before_header() {
    let params = CodecParameters::new_audio(CodecId::PcmS16Le, 44100, 1).unwrap();
    let mut out = wav_output(params);
    assert!(out.write_packet(&Packet::new(Buffer::from_vec(vec![0u8; 10]))).is_err());
}

#[test]
fn output_write_trailer_before_header() {
    let params = CodecParameters::new_audio(CodecId::PcmS16Le, 44100, 1).unwrap();
    let mut out = wav_output(params);
    assert!(out.write_trailer().is_err());
}

#[test]
fn output_double_header() {
    let params = CodecParameters::new_audio(CodecId::PcmS16Le, 44100, 1).unwrap();
    let mut out = wav_output(params);
    out.write_header().unwrap();
    assert!(out.write_header().is_err());
}

#[test]
fn output_write_packet_after_trailer() {
    let params = CodecParameters::new_audio(CodecId::PcmS16Le, 44100, 1).unwrap();
    let mut out = wav_output(params);
    out.write_header().unwrap();
    out.write_trailer().unwrap();
    assert!(out.write_packet(&Packet::new(Buffer::from_vec(vec![0u8; 10]))).is_err());
}

#[test]
fn output_double_trailer() {
    let params = CodecParameters::new_audio(CodecId::PcmS16Le, 44100, 1).unwrap();
    let mut out = wav_output(params);
    out.write_header().unwrap();
    out.write_trailer().unwrap();
    assert!(out.write_trailer().is_err());
}

#[test]
fn output_no_streams() {
    let mut out = OutputContext::new(IOContext::memory_writer(), Box::new(WavMuxer::new()));
    assert!(out.write_header().is_err());
}

#[test]
fn input_read_before_open() {
    let mut input = wav_input(vec![0u8; 100]);
    assert!(input.read_packet().is_err());
}

#[test]
fn input_double_open() {
    let params = CodecParameters::new_audio(CodecId::PcmS16Le, 44100, 1).unwrap();
    let mut out = wav_output(params);
    out.write_header().unwrap();
    out.write_packet(&Packet::new(Buffer::from_vec(vec![0u8; 20]))).unwrap();
    out.write_trailer().unwrap();
    let mut input = wav_input(out.into_io().into_vec().unwrap());
    input.open().unwrap();
    assert!(input.open().is_err());
}

// ── MP4 boxes ──

fn write_box(io: &mut IOContext, box_type: &[u8; 4], payload: &[u8]) {
    let size = (8 + payload.len()) as u32;
    io.write_u32_be(size).unwrap();
    io.write_all(box_type).unwrap();
    io.write_all(payload).unwrap();
}

#[test]
fn read_basic_box() {
    let mut io = IOContext::memory_writer();
    write_box(&mut io, b"ftyp", b"isom\x00\x00\x00\x00");
    io.seek(0).unwrap();
    let h = read_box_header(&mut io).unwrap();
    assert_eq!(h.type_str(), "ftyp");
    assert_eq!(h.size, 16);
    assert_eq!(h.payload_size, 8);
    assert_eq!(h.payload_offset, 8);
}

#[test]
fn read_two_boxes() {
    let mut io = IOContext::memory_writer();
    write_box(&mut io, b"ftyp", b"isom");
    write_box(&mut io, b"moov", b"data");
    io.seek(0).unwrap();
    let h1 = read_box_header(&mut io).unwrap();
    assert!(h1.is_type(b"ftyp"));
    skip_box(&mut io, &h1).unwrap();
    let h2 = read_box_header(&mut io).unwrap();
    assert!(h2.is_type(b"moov"));
}

#[test]
fn container_box_detection() {
    assert!(is_container_box(b"moov"));
    assert!(is_container_box(b"trak"));
    assert!(is_container_box(b"stbl"));
    assert!(!is_container_box(b"ftyp"));
    assert!(!is_container_box(b"mdat"));
}

#[test]
fn read_box_too_short() {
    let mut io = IOContext::from_memory(vec![0, 0, 0]);
    assert!(read_box_header(&mut io).is_err());
}

#[test]
fn full_box_header() {
    let mut io = IOContext::memory_writer();
    io.write_u32_be(0x01000001).unwrap();
    io.seek(0).unwrap();
    let (version, flags) = read_full_box_header(&mut io).unwrap();
    assert_eq!(version, 1);
    assert_eq!(flags, 1);
}

#[test]
fn read_extended_size_box() {
    let mut io = IOContext::memory_writer();
    io.write_u32_be(1).unwrap();
    io.write_all(b"mdat").unwrap();
    io.write_u64_be(24).unwrap();
    io.write_all(b"payloadX").unwrap();
    io.seek(0).unwrap();
    let h = read_box_header(&mut io).unwrap();
    assert!(h.is_type(b"mdat"));
    assert_eq!(h.size, 24);
    assert_eq!(h.payload_size, 8);
    assert_eq!(h.payload_offset, 16);
}

#[test]
fn read_zero_size_box() {
    let mut data = Vec::new();
    data.extend_from_slice(&0u32.to_be_bytes());
    data.extend_from_slice(b"mdat");
    data.extend_from_slice(&[0xAA; 100]);
    let mut io = IOContext::from_memory(data.clone());
    let h = read_box_header(&mut io).unwrap();
    assert!(h.is_type(b"mdat"));
    assert_eq!(h.size, data.len() as u64);
}

#[test]
fn skip_box_advances_position() {
    let mut io = IOContext::memory_writer();
    write_box(&mut io, b"free", &[0u8; 20]);
    write_box(&mut io, b"mdat", &[0xFF; 10]);
    io.seek(0).unwrap();
    let h1 = read_box_header(&mut io).unwrap();
    assert!(h1.is_type(b"free"));
    skip_box(&mut io, &h1).unwrap();
    assert_eq!(io.position().unwrap(), 28);
    let h2 = read_box_header(&mut io).unwrap();
    assert!(h2.is_type(b"mdat"));
}

// ── MP4 sample table ──

#[test]
fn build_sample_table_basic() {
    let sizes = vec![100, 200, 150];
    let offsets = vec![1000u64];
    let durations = vec![(3, 1024)];
    let spc = vec![(1, 3)];
    let table = build_sample_table(&sizes, &offsets, &durations, &spc, &None).unwrap();
    assert_eq!(table.len(), 3);
    assert_eq!(table[0].offset, 1000);
    assert_eq!(table[0].size, 100);
    assert_eq!(table[1].offset, 1100);
    assert_eq!(table[2].offset, 1300);
    assert!(table[0].is_sync);
}

#[test]
fn build_sample_table_with_sync() {
    let sizes = vec![100; 5];
    let offsets = vec![0u64];
    let durations = vec![(5, 512)];
    let spc = vec![(1, 5)];
    let syncs = Some(vec![1, 3]);
    let table = build_sample_table(&sizes, &offsets, &durations, &spc, &syncs).unwrap();
    assert!(table[0].is_sync);
    assert!(!table[1].is_sync);
    assert!(table[2].is_sync);
    assert!(!table[3].is_sync);
}

#[test]
fn build_sample_table_two_chunks() {
    let sizes = vec![10, 20, 30];
    let offsets = vec![100u64, 500];
    let durations = vec![(1, 7), (2, 9)];
    let spc = vec![(1, 2), (2, 1)];
    let table = build_sample_table(&sizes, &offsets, &durations, &spc, &None).unwrap();
    assert_eq!(table[0].offset, 100);
    assert_eq!(table[1].offset, 110);
    assert_eq!(table[2].offset, 500);
    assert_eq!(table[0].duration, 7);
    assert_eq!(table[1].duration, 9);
    assert_eq!(table[2].duration, 9);
}

#[test]
fn build_sample_table_empty() {
    let table = build_sample_table(&[], &[], &[], &[], &None).unwrap();
    assert!(table.is_empty());
}

// ── MP4 probe, mux, demux ──

fn aac_stream() -> Stream {
    let params = CodecParameters::new_audio(CodecId::Aac, 44100, 2).unwrap();
    let mut s = Stream::new(0, params);
    s.time_base = Rational::new(1, 44100);
    s
}

fn h264_stream() -> Stream {
    let params = CodecParameters::new_video(CodecId::H264, 1920, 1080).unwrap();
    let mut s = Stream::new(0, params);
    s.time_base = Rational::new(1, 90000);
    s
}

fn mp4_output(stream: Stream) -> OutputContext {
    let mut out = OutputContext::new(IOContext::memory_writer(), Box::new(Mp4Muxer::new()));
    out.add_stream(stream);
    out
}

fn mp4_input(data: Vec<u8>) -> InputContext {
    InputContext::new(IOContext::from_memory(data), Box::new(Mp4Demuxer::new()))
}

#[test]
fn probe_ftyp() {
    let mut data = vec![0u8; 20];
    data[0..4].copy_from_slice(&20u32.to_be_bytes());
    data[4..8].copy_from_slice(b"ftyp");
    assert_eq!(mp4::probe(&data), 95);
}

#[test]
fn mod_probe_no_match() {
    assert_eq!(mp4::probe(b"RIFFWAVE"), 0);
}

#[test]
fn probe_too_short() {
    assert_eq!(mp4::probe(b"short"), 0);
}

#[test]
fn mp4_mux_single_audio_track() {
    let mut out = mp4_output(aac_stream());
    out.write_header().unwrap();
    for _ in 0..10 {
        let mut pkt = Packet::new(Buffer::from_vec(vec![0xAA; 100]));
        pkt.duration = Some(1024);
        pkt.stream_index = 0;
        out.write_packet(&pkt).unwrap();
    }
    out.write_trailer().unwrap();
    let data = out.into_io().into_vec().unwrap();
    assert!(data.len() > 100);
    assert_eq!(&data[4..8], b"ftyp");
}

#[test]
fn mp4_roundtrip_audio() {
    let mut out = mp4_output(aac_stream());
    out.write_header().unwrap();
    let payloads: Vec<Vec<u8>> = (0..5).map(|i| vec![i as u8; 50 + i * 10]).collect();
    for payload in payloads.iter() {
        let mut pkt = Packet::new(Buffer::from_vec(payload.clone()));
        pkt.duration = Some(1024);
        pkt.stream_index = 0;
        out.write_packet(&pkt).unwrap();
    }
    out.write_trailer().unwrap();
    let mp4_data = out.into_io().into_vec().unwrap();

    let mut input = mp4_input(mp4_data);
    input.open().unwrap();
    assert_eq!(input.nb_streams(), 1);
    assert_eq!(input.streams[0].params.codec_id, CodecId::Aac);
    for (i, expected) in payloads.iter().enumerate() {
        let pkt = input.read_packet().unwrap();
        assert_eq!(pkt.data.data(), expected.as_slice(), "packet {i} mismatch");
        assert_eq!(pkt.duration, Some(1024));
    }
    assert!(matches!(input.read_packet(), Err(Error::Eof)));
}

#[test]
fn mp4_video_track() {
    let mut out = mp4_output(h264_stream());
    out.write_header().unwrap();
    let mut pkt = Packet::new(Buffer::from_vec(vec![0; 1000]));
    pkt.duration = Some(3000);
    pkt.flags.keyframe = true;
    out.write_packet(&pkt).unwrap();
    out.write_trailer().unwrap();

    let mut input = mp4_input(out.into_io().into_vec().unwrap());
    input.open().unwrap();
    assert_eq!(input.streams[0].params.codec_id, CodecId::H264);
    let read_pkt = input.read_packet().unwrap();
    assert_eq!(read_pkt.data.len(), 1000);
    assert!(read_pkt.flags.keyframe);
}

#[test]
fn mp4_probe() {
    let mut out = mp4_output(aac_stream());
    out.write_header().unwrap();
    out.write_trailer().unwrap();
    let data = out.into_io().into_vec().unwrap();
    assert_eq!(mp4::probe(&data), 95);
}

#[test]
fn mp4_mux_unsupported_codec() {
    let params = CodecParameters::new_audio(CodecId::PcmS16Le, 44100, 2).unwrap();
    let mut out = mp4_output(Stream::new(0, params));
    assert!(out.write_header().is_err());
}

#[test]
fn mp4_mux_no_streams() {
    let mut out = OutputContext::new(IOContext::memory_writer(), Box::new(Mp4Muxer::new()));
    assert!(out.write_header().is_err());
}

#[test]
fn mp4_demux_empty() {
    let mut input = mp4_input(vec![]);
    assert!(input.open().is_err());
}

#[test]
fn mp4_demux_not_mp4() {
    let mut input = mp4_input(b"RIFF\x00\x00\x00\x00WAVE".to_vec());
    assert!(input.open().is_err());
}

#[test]
fn rle_durations_basic() {
    let samples = vec![
        SampleInfo { offset: 0, size: 0, duration: 1024, is_sync: true },
        SampleInfo { offset: 0, size: 0, duration: 1024, is_sync: true },
        SampleInfo { offset: 0, size: 0, duration: 512, is_sync: true },
    ];
    let runs = rle_durations(&samples);
    assert_eq!(runs, vec![(2, 1024), (1, 512)]);
}

#[test]
fn mp4_roundtrip_multiple_packets_variable_size() {
    let mut out = mp4_output(aac_stream());
    out.write_header().unwrap();
    let sizes = [30, 100, 50, 200, 10];
    for (i, &sz) in sizes.iter().enumerate() {
        let mut pkt = Packet::new(Buffer::from_vec(vec![i as u8; sz]));
        pkt.duration = Some(1024);
        out.write_packet(&pkt).unwrap();
    }
    out.write_trailer().unwrap();

    let mut input = mp4_input(out.into_io().into_vec().unwrap());
    input.open().unwrap();
    for (i, &sz) in sizes.iter().enumerate() {
        let pkt = input.read_packet().unwrap();
        assert_eq!(pkt.data.len(), sz, "packet {i} size mismatch");
        assert!(pkt.data.data().iter().all(|&b| b == i as u8), "packet {i} data mismatch");
    }
}

#[test]
fn mp4_stream_index_out_of_range() {
    let mut out = mp4_output(aac_stream());
    out.write_header().unwrap();
    let mut pkt = Packet::new(Buffer::from_vec(vec![0; 10]));
    pkt.stream_index = 99;
    assert!(out.write_packet(&pkt).is_err());
}

#[test]
fn mp4_keyframe_tracking() {
    let mut out = mp4_output(h264_stream());
    out.write_header().unwrap();
    for (i, is_key) in [(0, true), (1, false), (2, true)] {
        let mut pkt = Packet::new(Buffer::from_vec(vec![i; 100]));
        pkt.duration = Some(3000);
        pkt.flags.keyframe = is_key;
        out.write_packet(&pkt).unwrap();
    }
    out.write_trailer().unwrap();

    let mut input = mp4_input(out.into_io().into_vec().unwrap());
    input.open().unwrap();
    let p0 = input.read_packet().unwrap();
    assert!(p0.flags.keyframe);
    let p1 = input.read_packet().unwrap();
    assert!(!p1.flags.keyframe);
    let p2 = input.read_packet().unwrap();
    assert!(p2.flags.keyframe);
}

#[test]
fn mp4_co64_triggered_by_large_offset() {
    let needs_64 = [SampleInfo { offset: u64::from(u32::MAX) + 1, size: 100, duration: 1024, is_sync: true }];
    assert!(needs_64.iter().any(|s| s.offset > u32::MAX as u64));
}

#[test]
fn mp4_demux_missing_moov() {
    let mut io_w = IOContext::memory_writer();
    io_w.write_u32_be(16).unwrap();
    io_w.write_all(b"ftyp").unwrap();
    io_w.write_all(b"isom\x00\x00\x00\x00").unwrap();
    io_w.write_u32_be(16).unwrap();
    io_w.write_all(b"mdat").unwrap();
    io_w.write_all(&[0u8; 8]).unwrap();
    let mut input = mp4_input(io_w.into_vec().unwrap());
    assert!(input.open().is_err());
}

#[test]
fn mp4_demux_truncated_box() {
    let mut io_w = IOContext::memory_writer();
    io_w.write_u32_be(16).unwrap();
    io_w.write_all(b"ftyp").unwrap();
    io_w.write_all(b"isom\x00\x00\x00\x00").unwrap();
    io_w.write_u32_be(1000).unwrap();
    io_w.write_all(b"moov").unwrap();
    let mut input = mp4_input(io_w.into_vec().unwrap());
    assert!(input.open().is_err());
}

#[test]
fn send_traits() {
    fn assert_send<T: Send>() {}
    assert_send::<InputContext>();
    assert_send::<OutputContext>();
}

#[test]
fn mp4_two_tracks_read_in_order() {
    let mut out = OutputContext::new(IOContext::memory_writer(), Box::new(Mp4Muxer::new()));
    out.add_stream(aac_stream());
    let mut video = h264_stream();
    video.index = 1;
    out.add_stream(video);
    out.write_header().unwrap();
    let mut a = Packet::new(Buffer::from_vec(vec![1; 30]));
    a.duration = Some(1024);
    a.stream_index = 0;
    out.write_packet(&a).unwrap();
    let mut v = Packet::new(Buffer::from_vec(vec![2; 40]));
    v.duration = Some(3000);
    v.stream_index = 1;
    out.write_packet(&v).unwrap();
    out.write_trailer().unwrap();

    let mut input = mp4_input(out.into_io().into_vec().unwrap());
    input.open().unwrap();
    assert_eq!(input.nb_streams(), 2);
    assert_eq!(input.streams[0].params.codec_id, CodecId::Aac);
    assert_eq!(input.streams[1].params.codec_id, CodecId::H264);
    let p0 = input.read_packet().unwrap();
    assert_eq!(p0.stream_index, 0);
    assert_eq!(p0.data.data(), &[1u8; 30][..]);
    let p1 = input.read_packet().unwrap();
    assert_eq!(p1.stream_index, 1);
    assert_eq!(p1.data.data(), &[2u8; 40][..]);
    assert!(matches!(input.read_packet(), Err(Error::Eof)));
}
