use justav::codec::codec::{CodecId, CodecRegistry, Decoder};
use justav::codec::codec_par::CodecParameters;
use justav::codec::codecs::ass::{parse_ass_time, parse_dialogue_line, strip_ass_tags, AssDecoder};
use justav::codec::codecs::pcm::{self, PcmDecoder};
use justav::codec::codecs::stubs;
use justav::codec::codecs::webvtt::{parse_webvtt_time, strip_webvtt_tags, WebVttDecoder};
use justav::codec::context::CodecContext;
use justav::codec::packet::Packet;
use justav::codec::subtitle::{parse_srt_time, parse_srt_timing, SrtDecoder, SubtitleDecoder};
use justav::util::buffer::Buffer;
use justav::util::error::Error;
use justav::util::frame::Frame;

fn make_pcm_registry() -> CodecRegistry {
    let mut reg = CodecRegistry::new();
    pcm::register(&mut reg);
    reg
}

fn make_stub_registry() -> CodecRegistry {
    let mut reg = CodecRegistry::new();
    stubs::register(&mut reg);
    reg
}

/// Encode `samples` as one frame of `id` and decode the packet back:
/// the packet bytes and the decoded plane.
fn pcm_roundtrip(id: CodecId, rate: u32, channels: u16, nb: u32, samples: &[u8]) -> (Vec<u8>, Vec<u8>, u32) {
    let reg = make_pcm_registry();
    let params = CodecParameters::new_audio(id, rate, channels).unwrap();

    let mut enc = CodecContext::new_encoder(&reg, id).unwrap();
    enc.open(&params).unwrap();
    let mut frame = Frame::new_audio(rate, channels, nb).unwrap();
    frame.set_plane(0, Buffer::from_vec(samples.to_vec()), 0).unwrap();
    enc.send_frame(Some(&frame)).unwrap();
    let mut pkt = Packet::empty();
    enc.receive_packet(&mut pkt).unwrap();

    let mut dec = CodecContext::new_decoder(&reg, id).unwrap();
    dec.open(&params).unwrap();
    dec.send_packet(&pkt).unwrap();
    let mut out = Frame::new_audio(rate, channels, 0).unwrap();
    dec.receive_frame(&mut out).unwrap();
    (pkt.data.data().to_vec(), out.plane(0).unwrap().to_vec(), out.nb_samples)
}

// ── PCM ──

#[test]
fn pcm_s16le_encode_decode_roundtrip() {
    let samples: Vec<u8> = (0..200).map(|i| (i % 256) as u8).collect();
    let (_, out, nb) = pcm_roundtrip(CodecId::PcmS16Le, 44100, 2, 50, &samples);
    assert_eq!(out, samples);
    assert_eq!(nb, 50);
}

#[test]
fn pcm_u8_roundtrip() {
    let samples = vec![128u8; 100];
    let (_, out, _) = pcm_roundtrip(CodecId::PcmU8, 8000, 1, 100, &samples);
    assert_eq!(out, samples);
}

#[test]
fn pcm_s16be_roundtrip() {
    let native_samples = vec![0x01u8, 0x02, 0x03, 0x04];
    let (pkt, out, _) = pcm_roundtrip(CodecId::PcmS16Be, 48000, 1, 2, &native_samples);
    assert_eq!(pkt, vec![0x02, 0x01, 0x04, 0x03]);
    assert_eq!(out, native_samples);
}

#[test]
fn pcm_f32le_roundtrip() {
    let samples: Vec<u8> = vec![0; 48000 * 2 * 4];
    let (_, out, _) = pcm_roundtrip(CodecId::PcmF32Le, 48000, 2, 48000, &samples);
    assert_eq!(out, samples);
}

#[test]
fn pcm_f32be_roundtrip() {
    let native_samples = vec![0x00u8, 0x00, 0x80, 0x3F, 0x00, 0x00, 0x00, 0x40];
    let (pkt, out, _) = pcm_roundtrip(CodecId::PcmF32Be, 44100, 1, 2, &native_samples);
    assert_eq!(pkt, vec![0x3F, 0x80, 0x00, 0x00, 0x40, 0x00, 0x00, 0x00]);
    assert_eq!(out, native_samples);
}

#[test]
fn pcm_nb_samples_from_packet_size() {
    let samples = vec![7u8; 12];
    let (_, _, nb) = pcm_roundtrip(CodecId::PcmS16Le, 44100, 3, 2, &samples);
    assert_eq!(nb, 2);
}

#[test]
fn flush_signals_eof() {
    let reg = make_pcm_registry();
    let params = CodecParameters::new_audio(CodecId::PcmS16Le, 44100, 1).unwrap();
    let mut dec = CodecContext::new_decoder(&reg, CodecId::PcmS16Le).unwrap();
    dec.open(&params).unwrap();
    dec.flush_decoder().unwrap();
    let mut out = Frame::new_audio(44100, 1, 0).unwrap();
    let err = dec.receive_frame(&mut out);
    assert!(matches!(err, Err(Error::Eof)));
}

#[test]
fn all_pcm_codecs_registered() {
    let reg = make_pcm_registry();
    for id in [CodecId::PcmS16Le, CodecId::PcmS16Be, CodecId::PcmF32Le, CodecId::PcmF32Be, CodecId::PcmU8] {
        assert!(reg.find_decoder(id).is_some(), "decoder missing for {}", id.name());
        assert!(reg.find_encoder(id).is_some(), "encoder missing for {}", id.name());
    }
}

#[test]
fn decode_before_open() {
    let mut dec = PcmDecoder::new(CodecId::PcmS16Le);
    let pkt = Packet::new(Buffer::from_vec(vec![0; 100]));
    assert!(dec.send_packet(&pkt).is_err());
}

#[test]
fn open_zero_channels() {
    let mut dec = PcmDecoder::new(CodecId::PcmS16Le);
    let mut params = CodecParameters::new_audio(CodecId::PcmS16Le, 44100, 1).unwrap();
    params.channels = 0;
    assert!(dec.open(&params).is_err());
}

#[test]
fn encode_no_plane() {
    let reg = make_pcm_registry();
    let params = CodecParameters::new_audio(CodecId::PcmS16Le, 44100, 1).unwrap();
    let mut enc = CodecContext::new_encoder(&reg, CodecId::PcmS16Le).unwrap();
    enc.open(&params).unwrap();
    let frame = Frame::new_audio(44100, 1, 100).unwrap();
    assert!(enc.send_frame(Some(&frame)).is_err());
}

#[test]
fn receive_without_send() {
    let reg = make_pcm_registry();
    let params = CodecParameters::new_audio(CodecId::PcmS16Le, 44100, 1).unwrap();
    let mut dec = CodecContext::new_decoder(&reg, CodecId::PcmS16Le).unwrap();
    dec.open(&params).unwrap();
    let mut out = Frame::new_audio(44100, 1, 0).unwrap();
    assert!(matches!(dec.receive_frame(&mut out), Err(Error::Again)));
}

// ── stubs ──

#[test]
fn stub_decoders_registered() {
    let reg = make_stub_registry();
    for id in [CodecId::H264, CodecId::Aac, CodecId::Opus, CodecId::Vp9, CodecId::Av1] {
        assert!(reg.find_decoder(id).is_some(), "stub decoder missing for {}", id.name());
    }
}

#[test]
fn stub_decoder_returns_unsupported() {
    let reg = make_stub_registry();
    let mut dec = reg.find_decoder(CodecId::H264).unwrap();
    let params = CodecParameters::new_video(CodecId::H264, 1920, 1080).unwrap();
    let err = dec.open(&params);
    assert!(err.is_err());
    let msg = err.unwrap_err().to_string();
    assert!(msg.contains("not yet implemented"), "unexpected error: {msg}");
}

#[test]
fn stub_send_returns_unsupported() {
    let reg = make_stub_registry();
    let mut dec = reg.find_decoder(CodecId::Aac).unwrap();
    let pkt = Packet::empty();
    assert!(dec.send_packet(&pkt).is_err());
}

#[test]
fn stub_receive_returns_unsupported() {
    let reg = make_stub_registry();
    let mut dec = reg.find_decoder(CodecId::Opus).unwrap();
    let mut frame = Frame::new_audio(48000, 2, 0).unwrap();
    assert!(dec.receive_frame(&mut frame).is_err());
}

#[test]
fn pcm_not_overwritten_by_stubs() {
    let mut reg = CodecRegistry::new();
    pcm::register(&mut reg);
    stubs::register(&mut reg);
    let mut dec = reg.find_decoder(CodecId::PcmS16Le).unwrap();
    let params = CodecParameters::new_audio(CodecId::PcmS16Le, 44100, 1).unwrap();
    assert!(dec.open(&params).is_ok());
}

// ── SRT ──

const SRT_SAMPLE: &str = "\
1
00:00:01,000 --> 00:00:03,500
Hello World

2
00:00:04,000 --> 00:00:06,000
Second line
With continuation

";

#[test]
fn parse_srt_basic() {
    let mut dec = SrtDecoder::new();
    let frame = dec.decode(SRT_SAMPLE.as_bytes()).unwrap();
    assert_eq!(frame.entries.len(), 2);
    assert_eq!(frame.entries[0].start_ms, 1000);
    assert_eq!(frame.entries[0].end_ms, 3500);
    assert_eq!(frame.entries[0].text, "Hello World");
    assert_eq!(frame.entries[1].start_ms, 4000);
    assert_eq!(frame.entries[1].end_ms, 6000);
    assert_eq!(frame.entries[1].text, "Second line\nWith continuation");
}

#[test]
fn parse_srt_time_values() {
    assert_eq!(parse_srt_time("01:02:03,456").unwrap(), 3_723_456);
    assert_eq!(parse_srt_time("00:00:00,000").unwrap(), 0);
    assert_eq!(parse_srt_time("00:00:01.500").unwrap(), 1500);
}

#[test]
fn parse_srt_timing_values() {
    assert_eq!(parse_srt_timing("00:00:01,000 --> 00:00:03,500").unwrap(), (1000, 3500));
}

#[test]
fn parse_srt_empty_input() {
    let mut dec = SrtDecoder::new();
    let frame = dec.decode(b"").unwrap();
    assert!(frame.entries.is_empty());
}

#[test]
fn srt_decoder_codec_id() {
    let dec = SrtDecoder::new();
    assert_eq!(dec.codec_id(), CodecId::Srt);
}

#[test]
fn parse_srt_invalid_utf8() {
    let mut dec = SrtDecoder::new();
    assert!(dec.decode(&[0xFF, 0xFE]).is_err());
}

#[test]
fn parse_srt_bad_timing() {
    assert!(parse_srt_timing("not a timing line").is_err());
}

#[test]
fn parse_srt_bad_time_format() {
    assert!(parse_srt_time("invalid").is_err());
    assert!(parse_srt_time("aa:bb:cc,ddd").is_err());
}

#[test]
fn parse_srt_single_entry() {
    let srt = "1\n00:00:00,000 --> 00:00:01,000\nHello\n\n";
    let mut dec = SrtDecoder::new();
    let frame = dec.decode(srt.as_bytes()).unwrap();
    assert_eq!(frame.entries.len(), 1);
}

#[test]
fn parse_srt_overlapping_timing() {
    let srt = "\
1
00:00:01,000 --> 00:00:05,000
First (long)

2
00:00:02,000 --> 00:00:03,000
Second (overlapping)

";
    let mut dec = SrtDecoder::new();
    let frame = dec.decode(srt.as_bytes()).unwrap();
    assert_eq!(frame.entries.len(), 2);
    assert_eq!(frame.entries[0].start_ms, 1000);
    assert_eq!(frame.entries[0].end_ms, 5000);
    assert_eq!(frame.entries[1].start_ms, 2000);
    assert_eq!(frame.entries[1].end_ms, 3000);
}

// ── ASS ──

const ASS_SAMPLE: &str = "\
[Script Info]
Title: Test

[Events]
Format: Layer, Start, End, Style, Name, MarginL, MarginR, MarginV, Effect, Text
Dialogue: 0,0:00:01.00,0:00:03.50,Default,,0,0,0,,Hello World
Dialogue: 0,0:00:04.00,0:00:06.00,Default,,0,0,0,,Second {\\b1}bold{\\b0} line
";

#[test]
fn parse_ass_basic() {
    let mut dec = AssDecoder::new();
    let frame = dec.decode(ASS_SAMPLE.as_bytes()).unwrap();
    assert_eq!(frame.entries.len(), 2);
    assert_eq!(frame.entries[0].start_ms, 1000);
    assert_eq!(frame.entries[0].end_ms, 3500);
    assert_eq!(frame.entries[0].text, "Hello World");
    assert_eq!(frame.entries[1].start_ms, 4000);
    assert_eq!(frame.entries[1].end_ms, 6000);
    assert_eq!(frame.entries[1].text, "Second bold line");
}

#[test]
fn ass_strip_tags() {
    assert_eq!(strip_ass_tags("{\\an8}Top text"), "Top text");
    assert_eq!(strip_ass_tags("{\\i1}italic{\\i0}"), "italic");
    assert_eq!(strip_ass_tags("no tags"), "no tags");
    assert_eq!(strip_ass_tags(""), "");
}

#[test]
fn ass_newlines() {
    let line = "0,0:00:00.00,0:00:01.00,Default,,0,0,0,,Line 1\\NLine 2";
    let entry = parse_dialogue_line(line).unwrap();
    assert_eq!(entry.text, "Line 1\nLine 2");
}

#[test]
fn ass_time_parsing() {
    assert_eq!(parse_ass_time("0:00:00.00").unwrap(), 0);
    assert_eq!(parse_ass_time("0:01:23.45").unwrap(), 83450);
    assert_eq!(parse_ass_time("1:00:00.00").unwrap(), 3_600_000);
}

#[test]
fn ass_text_with_commas() {
    let line = "0,0:00:00.00,0:00:01.00,Default,,0,0,0,,Hello, World, Test";
    let entry = parse_dialogue_line(line).unwrap();
    assert_eq!(entry.text, "Hello, World, Test");
}

#[test]
fn ass_codec_id() {
    assert_eq!(AssDecoder::new().codec_id(), CodecId::Ass);
}

#[test]
fn parse_ass_invalid_utf8() {
    let mut dec = AssDecoder::new();
    assert!(dec.decode(&[0xFF, 0xFE]).is_err());
}

#[test]
fn parse_ass_bad_time() {
    assert!(parse_ass_time("invalid").is_err());
    assert!(parse_ass_time("0:00").is_err());
}

#[test]
fn parse_dialogue_too_few_fields() {
    assert!(parse_dialogue_line("0,0:00:00.00,0:00:01.00").is_err());
}

#[test]
fn parse_ass_empty() {
    let mut dec = AssDecoder::new();
    let frame = dec.decode(b"").unwrap();
    assert!(frame.entries.is_empty());
}

#[test]
fn parse_ass_no_events() {
    let mut dec = AssDecoder::new();
    let frame = dec.decode(b"[Script Info]\nTitle: Test\n").unwrap();
    assert!(frame.entries.is_empty());
}

// ── WebVTT ──

const WEBVTT_SAMPLE: &str = "\
WEBVTT

1
00:00:01.000 --> 00:00:03.500
Hello World

2
00:00:04.000 --> 00:00:06.000
Second <b>bold</b> line
With continuation
";

#[test]
fn parse_webvtt_basic() {
    let mut dec = WebVttDecoder::new();
    let frame = dec.decode(WEBVTT_SAMPLE.as_bytes()).unwrap();
    assert_eq!(frame.entries.len(), 2);
    assert_eq!(frame.entries[0].start_ms, 1000);
    assert_eq!(frame.entries[0].end_ms, 3500);
    assert_eq!(frame.entries[0].text, "Hello World");
    assert_eq!(frame.entries[1].start_ms, 4000);
    assert_eq!(frame.entries[1].end_ms, 6000);
    assert_eq!(frame.entries[1].text, "Second bold line\nWith continuation");
}

#[test]
fn parse_webvtt_no_cue_id() {
    let vtt = "WEBVTT\n\n00:00:01.000 --> 00:00:02.000\nHello\n";
    let mut dec = WebVttDecoder::new();
    let frame = dec.decode(vtt.as_bytes()).unwrap();
    assert_eq!(frame.entries.len(), 1);
    assert_eq!(frame.entries[0].text, "Hello");
}

#[test]
fn parse_webvtt_mm_ss_format() {
    let vtt = "WEBVTT\n\n01:23.456 --> 02:34.567\nShort format\n";
    let mut dec = WebVttDecoder::new();
    let frame = dec.decode(vtt.as_bytes()).unwrap();
    assert_eq!(frame.entries[0].start_ms, 83456);
    assert_eq!(frame.entries[0].end_ms, 154567);
}

#[test]
fn webvtt_strip_tags() {
    assert_eq!(strip_webvtt_tags("<b>bold</b>"), "bold");
    assert_eq!(strip_webvtt_tags("<i>italic</i>"), "italic");
    assert_eq!(strip_webvtt_tags("<c.yellow>colored</c>"), "colored");
    assert_eq!(strip_webvtt_tags("no tags"), "no tags");
}

#[test]
fn webvtt_time_parsing() {
    assert_eq!(parse_webvtt_time("00:00:00.000").unwrap(), 0);
    assert_eq!(parse_webvtt_time("01:02:03.456").unwrap(), 3_723_456);
    assert_eq!(parse_webvtt_time("00:01.500").unwrap(), 1500);
}

#[test]
fn webvtt_with_positioning() {
    let vtt = "WEBVTT\n\n00:00:01.000 --> 00:00:02.000 position:10% line:0\nPositioned\n";
    let mut dec = WebVttDecoder::new();
    let frame = dec.decode(vtt.as_bytes()).unwrap();
    assert_eq!(frame.entries[0].end_ms, 2000);
    assert_eq!(frame.entries[0].text, "Positioned");
}

#[test]
fn webvtt_with_header_metadata() {
    let vtt = "WEBVTT - Title\nKind: captions\nLanguage: en\n\n00:00:01.000 --> 00:00:02.000\nHello\n";
    let mut dec = WebVttDecoder::new();
    let frame = dec.decode(vtt.as_bytes()).unwrap();
    assert_eq!(frame.entries.len(), 1);
}

#[test]
fn webvtt_codec_id() {
    assert_eq!(WebVttDecoder::new().codec_id(), CodecId::WebVtt);
}

#[test]
fn missing_webvtt_header() {
    let mut dec = WebVttDecoder::new();
    assert!(dec.decode(b"00:00:01.000 --> 00:00:02.000\nHello\n").is_err());
}

#[test]
fn empty_webvtt() {
    let mut dec = WebVttDecoder::new();
    assert!(dec.decode(b"").is_err());
}

#[test]
fn invalid_utf8() {
    let mut dec = WebVttDecoder::new();
    assert!(dec.decode(&[0xFF, 0xFE]).is_err());
}

#[test]
fn bad_time_format() {
    assert!(parse_webvtt_time("invalid").is_err());
    assert!(parse_webvtt_time("aa:bb:cc.ddd").is_err());
}

#[test]
fn webvtt_only_header() {
    let mut dec = WebVttDecoder::new();
    let frame = dec.decode(b"WEBVTT\n\n").unwrap();
    assert!(frame.entries.is_empty());
}

#[test]
fn webvtt_bom() {
    let vtt = "\u{FEFF}WEBVTT\n\n00:00:01.000 --> 00:00:02.000\nBOM test\n";
    let mut dec = WebVttDecoder::new();
    let frame = dec.decode(vtt.as_bytes()).unwrap();
    assert_eq!(frame.entries.len(), 1);
}
