use justav::codec::codec::CodecId;
use justav::codec::codec_par::CodecParameters;
use justav::codec::packet::Packet;
use justav::format::demux::Demuxer;
use justav::format::interleave::{compare_dts, InterleaveBuffer, InterleaveMode};
use justav::format::metadata::{Attachment, Chapter, Metadata};
use justav::format::mux::Muxer;
use justav::format::io::IOContext;
use justav::format::probe::{pick_best, PROBE_BUF_SIZE};
use justav::format::protocol::{FileProtocol, PipeProtocol};
use justav::format::seek::{IndexEntry, SeekIndex};
use justav::format::stream::{Stream, StreamDisposition};
use justav::util::buffer::Buffer;
use justav::util::dict::Dict;
use justav::util::frame::MediaType;
use justav::util::rational::Rational;

fn make_packet(dts: i64, stream: u32) -> Packet {
    let mut pkt = Packet::new(Buffer::from_vec(vec![0]));
    pkt.dts = Some(dts);
    pkt.stream_index = stream;
    pkt.time_base = Rational::new(1, 1000);
    pkt
}

// ── interleaving ──

#[test]
fn dts_interleave_orders_correctly() {
    let mut buf = InterleaveBuffer::new(InterleaveMode::Dts);
    buf.push(make_packet(300, 0));
    buf.push(make_packet(100, 1));
    buf.push(make_packet(200, 0));
    assert_eq!(buf.pop().unwrap().dts, Some(100));
    assert_eq!(buf.pop().unwrap().dts, Some(200));
    assert_eq!(buf.pop().unwrap().dts, Some(300));
}

#[test]
fn passthrough_preserves_order() {
    let mut buf = InterleaveBuffer::new(InterleaveMode::Passthrough);
    buf.push(make_packet(300, 0));
    buf.push(make_packet(100, 1));
    buf.push(make_packet(200, 0));
    assert_eq!(buf.pop().unwrap().dts, Some(300));
    assert_eq!(buf.pop().unwrap().dts, Some(100));
    assert_eq!(buf.pop().unwrap().dts, Some(200));
}

#[test]
fn drain_dts() {
    let mut buf = InterleaveBuffer::new(InterleaveMode::Dts);
    buf.push(make_packet(30, 0));
    buf.push(make_packet(10, 1));
    buf.push(make_packet(20, 0));
    let pkts = buf.drain();
    let dts_values: Vec<i64> = pkts.iter().map(|p| p.dts.unwrap()).collect();
    assert_eq!(dts_values, vec![10, 20, 30]);
    assert!(buf.is_empty());
}

#[test]
fn drain_dts_output_is_sorted() {
    let mut buf = InterleaveBuffer::new(InterleaveMode::Dts);
    for d in [50, 10, 40, 10, 30, 20, 0] {
        buf.push(make_packet(d, 0));
    }
    let dts: Vec<i64> = buf.drain().iter().map(|p| p.dts.unwrap()).collect();
    assert_eq!(dts, vec![0, 10, 10, 20, 30, 40, 50]);
}

#[test]
fn dts_equal_keeps_arrival_order() {
    let mut buf = InterleaveBuffer::new(InterleaveMode::Dts);
    buf.push(make_packet(10, 0));
    buf.push(make_packet(10, 1));
    assert_eq!(buf.pop().unwrap().stream_index, 0);
    assert_eq!(buf.pop().unwrap().stream_index, 1);
}

#[test]
fn compare_dts_orders_across_timebases() {
    let a = make_packet(1000, 0);
    let mut b = make_packet(48000, 1);
    b.time_base = Rational::new(1, 48000);
    assert_eq!(compare_dts(&a, &b), std::cmp::Ordering::Equal);
    assert_eq!(compare_dts(&make_packet(1, 0), &make_packet(2, 0)), std::cmp::Ordering::Less);
}

#[test]
fn pop_empty() {
    let mut buf = InterleaveBuffer::new(InterleaveMode::Dts);
    assert!(buf.pop().is_none());
}

#[test]
fn len_tracking() {
    let mut buf = InterleaveBuffer::new(InterleaveMode::Dts);
    assert!(buf.is_empty());
    buf.push(make_packet(10, 0));
    assert_eq!(buf.len(), 1);
    buf.pop();
    assert!(buf.is_empty());
}

#[test]
fn dts_interleave_different_timebases() {
    let mut buf = InterleaveBuffer::new(InterleaveMode::Dts);
    let mut pkt_a = Packet::new(Buffer::from_vec(vec![0]));
    pkt_a.dts = Some(2000);
    pkt_a.time_base = Rational::new(1, 1000);
    pkt_a.stream_index = 0;
    let mut pkt_b = Packet::new(Buffer::from_vec(vec![0]));
    pkt_b.dts = Some(48000);
    pkt_b.time_base = Rational::new(1, 48000);
    pkt_b.stream_index = 1;
    buf.push(pkt_a);
    buf.push(pkt_b);
    let first = buf.pop().unwrap();
    assert_eq!(first.stream_index, 1);
    let second = buf.pop().unwrap();
    assert_eq!(second.stream_index, 0);
}

#[test]
fn dts_none_treated_as_max() {
    let mut buf = InterleaveBuffer::new(InterleaveMode::Dts);
    let mut pkt_a = Packet::new(Buffer::from_vec(vec![0]));
    pkt_a.dts = None;
    pkt_a.time_base = Rational::new(1, 1000);
    buf.push(pkt_a);
    buf.push(make_packet(100, 0));
    let first = buf.pop().unwrap();
    assert_eq!(first.dts, Some(100));
    let second = buf.pop().unwrap();
    assert_eq!(second.dts, None);
}

#[test]
fn dts_reverse_order_corrected() {
    let mut buf = InterleaveBuffer::new(InterleaveMode::Dts);
    buf.push(make_packet(300, 0));
    buf.push(make_packet(200, 0));
    buf.push(make_packet(100, 0));
    assert_eq!(buf.pop().unwrap().dts, Some(100));
    assert_eq!(buf.pop().unwrap().dts, Some(200));
    assert_eq!(buf.pop().unwrap().dts, Some(300));
}

#[test]
fn dts_large_gap() {
    let mut buf = InterleaveBuffer::new(InterleaveMode::Dts);
    buf.push(make_packet(0, 0));
    buf.push(make_packet(1_000_000_000, 0));
    assert_eq!(buf.pop().unwrap().dts, Some(0));
    assert_eq!(buf.pop().unwrap().dts, Some(1_000_000_000));
}

// ── seek index ──

fn make_index() -> SeekIndex {
    let mut idx = SeekIndex::new();
    idx.add(IndexEntry { timestamp: 0, pos: 0, size: 1000, keyframe: true });
    idx.add(IndexEntry { timestamp: 1000, pos: 5000, size: 500, keyframe: false });
    idx.add(IndexEntry { timestamp: 2000, pos: 10000, size: 1000, keyframe: true });
    idx.add(IndexEntry { timestamp: 3000, pos: 15000, size: 800, keyframe: false });
    idx.add(IndexEntry { timestamp: 4000, pos: 20000, size: 1000, keyframe: true });
    idx
}

#[test]
fn find_exact_timestamp() {
    let idx = make_index();
    let entry = idx.find(2000, false).unwrap();
    assert_eq!(entry.timestamp, 2000);
    assert_eq!(entry.pos, 10000);
}

#[test]
fn find_between_timestamps() {
    let idx = make_index();
    let entry = idx.find(1500, false).unwrap();
    assert_eq!(entry.timestamp, 1000);
}

#[test]
fn find_keyframe_only() {
    let idx = make_index();
    let entry = idx.find(3000, true).unwrap();
    assert_eq!(entry.timestamp, 2000);
    assert!(entry.keyframe);
}

#[test]
fn find_first_entry() {
    let idx = make_index();
    let entry = idx.find(0, false).unwrap();
    assert_eq!(entry.timestamp, 0);
}

#[test]
fn find_before_first_entry() {
    let idx = make_index();
    assert_eq!(idx.find(-5, false).unwrap().timestamp, 0);
    assert_eq!(idx.find(99_999, false).unwrap().timestamp, 4000);
}

#[test]
fn find_by_pos() {
    let idx = make_index();
    let entry = idx.find_by_pos(12000).unwrap();
    assert_eq!(entry.pos, 10000);
}

#[test]
fn find_empty_index() {
    let idx = SeekIndex::new();
    assert!(idx.find(0, false).is_none());
}

#[test]
fn find_keyframe_none_before() {
    let mut idx = SeekIndex::new();
    idx.add(IndexEntry { timestamp: 100, pos: 0, size: 100, keyframe: false });
    assert!(idx.find(100, true).is_none());
}

#[test]
fn seek_len_and_empty() {
    let idx = make_index();
    assert_eq!(idx.len(), 5);
    assert!(!idx.is_empty());
    assert!(SeekIndex::new().is_empty());
}

// ── metadata ──

#[test]
fn metadata_default() {
    let m = Metadata::new();
    assert!(m.tags.is_empty());
    assert!(m.chapters.is_empty());
    assert!(m.attachments.is_empty());
}

#[test]
fn add_chapter() {
    let mut m = Metadata::new();
    m.chapters.push(Chapter { id: 1, start_ms: 0, end_ms: 60_000, title: "Intro".into(), metadata: Dict::new() });
    assert_eq!(m.chapters.len(), 1);
    assert_eq!(m.chapters[0].title, "Intro");
}

#[test]
fn add_attachment() {
    let mut m = Metadata::new();
    m.attachments.push(Attachment {
        filename: "cover.jpg".into(),
        mime_type: "image/jpeg".into(),
        data: Buffer::from_vec(vec![0xFF, 0xD8, 0xFF]),
    });
    assert_eq!(m.attachments.len(), 1);
    assert_eq!(m.attachments[0].mime_type, "image/jpeg");
}

#[test]
fn tags() {
    let mut m = Metadata::new();
    m.tags.set("title", "My Video");
    m.tags.set("artist", "justav");
    assert_eq!(m.tags.get("title"), Some("My Video"));
}

#[test]
fn empty_chapter_title() {
    let mut m = Metadata::new();
    m.chapters.push(Chapter { id: 1, start_ms: 0, end_ms: 1000, title: String::new(), metadata: Dict::new() });
    assert!(m.chapters[0].title.is_empty());
}

#[test]
fn chapter_start_after_end() {
    let ch = Chapter { id: 1, start_ms: 5000, end_ms: 1000, title: "Bad".into(), metadata: Dict::new() };
    assert!(ch.start_ms > ch.end_ms);
}

#[test]
fn empty_attachment() {
    let mut m = Metadata::new();
    m.attachments.push(Attachment { filename: String::new(), mime_type: String::new(), data: Buffer::from_vec(vec![]) });
    assert!(m.attachments[0].data.is_empty());
}

#[test]
fn multiple_chapters_ordering() {
    let mut m = Metadata::new();
    for i in 0..5 {
        m.chapters.push(Chapter {
            id: i,
            start_ms: i * 10_000,
            end_ms: (i + 1) * 10_000,
            title: format!("Chapter {i}"),
            metadata: Dict::new(),
        });
    }
    assert_eq!(m.chapters.len(), 5);
    assert_eq!(m.chapters[2].title, "Chapter 2");
    assert_eq!(m.chapters[4].end_ms, 50_000);
}

#[test]
fn metadata_clone() {
    let mut m = Metadata::new();
    m.tags.set("key", "val");
    m.chapters.push(Chapter { id: 1, start_ms: 0, end_ms: 1000, title: "Ch1".into(), metadata: Dict::new() });
    let m2 = m.clone();
    assert_eq!(m2.tags.get("key"), Some("val"));
    assert_eq!(m2.chapters.len(), 1);
}

// ── streams ──

#[test]
fn new_stream() {
    let params = CodecParameters::new_video(CodecId::H264, 1920, 1080).unwrap();
    let s = Stream::new(0, params);
    assert_eq!(s.index, 0);
    assert_eq!(s.codec_id(), CodecId::H264);
    assert_eq!(s.params.media_type, MediaType::Video);
}

#[test]
fn stream_metadata() {
    let params = CodecParameters::new_audio(CodecId::Aac, 48000, 2).unwrap();
    let mut s = Stream::new(1, params);
    s.metadata.set("language", "eng");
    assert_eq!(s.metadata.get("language"), Some("eng"));
}

#[test]
fn disposition_defaults() {
    let d = StreamDisposition::default();
    assert!(!d.default);
    assert!(!d.attached_pic);
}

// ── probing ──

fn dummy_probe(data: &[u8]) -> u32 {
    if data.starts_with(b"RIFF") { 80 } else { 0 }
}

fn dummy_probe2(data: &[u8]) -> u32 {
    if data.starts_with(b"\x1aE") { 90 } else { 0 }
}

#[test]
fn probe_matches() {
    let data = b"RIFF\x00\x00\x00\x00WAVEfmt ";
    let result = pick_best(&["wav"], &[dummy_probe(data)]).unwrap();
    assert_eq!(result.format_name, "wav");
    assert_eq!(result.score, 80);
}

#[test]
fn probe_probe_no_match() {
    let data = b"NOT_RIFF_DATA";
    assert!(pick_best(&["wav"], &[dummy_probe(data)]).is_none());
}

#[test]
fn probe_best_score_wins() {
    let data = b"\x1aE\xdf\xa3";
    let result = pick_best(&["wav", "mkv"], &[dummy_probe(data), dummy_probe2(data)]).unwrap();
    assert_eq!(result.format_name, "mkv");
    assert_eq!(result.score, 90);
}

#[test]
fn probe_tie_keeps_first() {
    let result = pick_best(&["a", "b", "c"], &[10, 70, 70]).unwrap();
    assert_eq!(result.format_name, "b");
    assert_eq!(result.score, 70);
    assert_eq!(PROBE_BUF_SIZE, 4096);
}

// ── traits ──

#[test]
fn demux_trait_is_object_safe() {
    fn accepts(_d: &dyn Demuxer) {}
    let _ = accepts;
}

#[test]
fn muxer_trait_is_object_safe() {
    fn accepts(_m: &dyn Muxer) {}
    let _ = accepts;
}

// ── protocols ──

#[test]
fn can_handle_paths() {
    let p = FileProtocol::new();
    assert!(p.can_handle("test.wav"));
    assert!(p.can_handle("/tmp/test.mp4"));
    assert!(p.can_handle("file:///tmp/test.mp4"));
    assert!(!p.can_handle("http://example.com/video.mp4"));
}

#[test]
fn file_name() {
    assert_eq!(FileProtocol::new().name(), "file");
}

#[test]
fn file_path_strips_scheme() {
    let p = FileProtocol::new();
    assert_eq!(p.path("file:///tmp/a.wav"), "/tmp/a.wav");
    assert_eq!(p.path("/tmp/a.wav"), "/tmp/a.wav");
}

#[test]
fn can_handle() {
    let p = PipeProtocol::new();
    assert!(p.can_handle("pipe:"));
    assert!(p.can_handle("pipe:0"));
    assert!(p.can_handle("pipe:1"));
    assert!(p.can_handle("pipe://stdin"));
    assert!(!p.can_handle("file.wav"));
    assert!(!p.can_handle("http://example.com"));
}

#[test]
fn pipe_name() {
    assert_eq!(PipeProtocol::new().name(), "pipe");
}

#[test]
fn pipe_reader_not_seekable() {
    let data = vec![1u8, 2, 3, 4, 5];
    let mut ctx = IOContext::from_memory(data);
    ctx.seekable = false;
    let mut buf = [0u8; 3];
    ctx.read_exact(&mut buf).unwrap();
    assert_eq!(buf, [1, 2, 3]);
    assert!(ctx.seek(0).is_err());
}

#[test]
fn pipe_writer_not_seekable() {
    let mut ctx = IOContext::memory_writer();
    ctx.seekable = false;
    assert!(ctx.seek(0).is_err());
}
