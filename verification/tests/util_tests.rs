use justav::util::audio_fifo::AudioFifo;
use justav::util::base64::{decode, encode};
use justav::util::buffer::{Buffer, BufferPool};
use justav::util::channel_layout::{Channel, ChannelLayout};
use justav::util::dict::Dict;
use justav::util::error::{Error, IoErrorKind, Result};
use justav::util::fifo::Fifo;
use justav::util::frame::{Frame, MediaType, SideDataType, MAX_PLANES};
use justav::util::rational::Rational;
use justav::util::samplefmt::SampleFormat;

/// The library's error for an I/O error, by its kind.
fn from_io(e: std::io::Error) -> Error {
    let kind = match e.kind() {
        std::io::ErrorKind::UnexpectedEof => IoErrorKind::UnexpectedEof,
        std::io::ErrorKind::NotFound => IoErrorKind::NotFound,
        std::io::ErrorKind::OutOfMemory => IoErrorKind::OutOfMemory,
        std::io::ErrorKind::InvalidData => IoErrorKind::InvalidData,
        std::io::ErrorKind::InvalidInput => IoErrorKind::InvalidInput,
        _ => IoErrorKind::Other,
    };
    Error::from_io_kind(kind, e.to_string())
}

// ── error ──

#[test]
fn display_eof() {
    assert_eq!(Error::Eof.to_string(), "end of file");
}

#[test]
fn display_invalid_data() {
    let e = Error::InvalidData("bad header".into());
    assert_eq!(e.to_string(), "invalid data: bad header");
}

#[test]
fn display_all_variants() {
    let variants: Vec<Error> = vec![
        Error::Eof,
        Error::InvalidData("x".into()),
        Error::Unsupported("x".into()),
        Error::Io("x".into()),
        Error::NotFound("x".into()),
        Error::Again,
        Error::Overflow,
        Error::InvalidArgument("x".into()),
        Error::InvalidState("x".into()),
        Error::NoMemory,
    ];
    for v in &variants {
        assert!(!v.to_string().is_empty());
    }
}

#[test]
fn result_ok() {
    let r: Result<i32> = Ok(42);
    assert_eq!(r.unwrap(), 42);
}

#[test]
fn result_err() {
    let r: Result<i32> = Err(Error::Eof);
    assert!(r.is_err());
}

#[test]
fn from_io_unexpected_eof() {
    let io_err = std::io::Error::new(std::io::ErrorKind::UnexpectedEof, "eof");
    let e: Error = from_io(io_err);
    assert_eq!(e, Error::Eof);
}

#[test]
fn from_io_not_found() {
    let io_err = std::io::Error::new(std::io::ErrorKind::NotFound, "missing");
    let e: Error = from_io(io_err);
    assert!(matches!(e, Error::NotFound(_)));
}

#[test]
fn from_io_other() {
    let io_err = std::io::Error::new(std::io::ErrorKind::ConnectionRefused, "refused");
    let e: Error = from_io(io_err);
    assert!(matches!(e, Error::Io(_)));
}

#[test]
fn error_is_clone_and_eq() {
    let a = Error::Overflow;
    let b = a.clone();
    assert_eq!(a, b);
}

#[test]
fn error_texts_of_each_kind() {
    assert_eq!(Error::Unsupported("codec".into()).to_string(), "unsupported: codec");
    assert_eq!(Error::Again.to_string(), "resource temporarily unavailable");
    assert_eq!(Error::InvalidArgument("n".into()).to_string(), "invalid argument: n");
    assert_eq!(Error::from_io_kind(IoErrorKind::InvalidInput, "bad".into()), Error::InvalidArgument("bad".into()));
    assert_eq!(Error::from_io_kind(IoErrorKind::OutOfMemory, "oom".into()), Error::NoMemory);
}

// ── base64 ──

#[test]
fn encode_empty() {
    assert_eq!(encode(b""), "");
}

#[test]
fn encode_hello() {
    assert_eq!(encode(b"Hello"), "SGVsbG8=");
}

#[test]
fn encode_padding_1() {
    assert_eq!(encode(b"a"), "YQ==");
}

#[test]
fn encode_padding_2() {
    assert_eq!(encode(b"ab"), "YWI=");
}

#[test]
fn encode_no_padding() {
    assert_eq!(encode(b"abc"), "YWJj");
}

#[test]
fn decode_hello() {
    assert_eq!(decode("SGVsbG8=").unwrap(), b"Hello");
}

#[test]
fn roundtrip() {
    let data = b"The quick brown fox jumps over the lazy dog";
    assert_eq!(decode(&encode(data)).unwrap(), data);
}

#[test]
fn roundtrip_binary() {
    let data: Vec<u8> = (0..=255).collect();
    assert_eq!(decode(&encode(&data)).unwrap(), data);
}

#[test]
fn decode_ignores_whitespace() {
    assert_eq!(decode("SGVs\nbG8=").unwrap(), b"Hello");
}

#[test]
fn decode_invalid_char() {
    assert!(decode("SGVs!G8=").is_err());
}

#[test]
fn decode_empty() {
    assert_eq!(decode("").unwrap(), b"");
}

#[test]
fn roundtrip_single_byte() {
    for b in 0..=255u8 {
        let encoded = encode(&[b]);
        let decoded = decode(&encoded).unwrap();
        assert_eq!(decoded, vec![b]);
    }
}

// ── fifo ──

#[test]
fn write_and_read() {
    let mut f = Fifo::new(16).unwrap();
    f.write(&[1, 2, 3]).unwrap();
    let mut buf = [0u8; 3];
    f.read(&mut buf).unwrap();
    assert_eq!(buf, [1, 2, 3]);
    assert!(f.is_empty());
}

#[test]
fn fifo_wrap_around() {
    let mut f = Fifo::new(4).unwrap();
    f.write(&[1, 2, 3]).unwrap();
    let mut buf = [0u8; 2];
    f.read(&mut buf).unwrap();
    f.write(&[4, 5]).unwrap();
    let mut buf2 = [0u8; 3];
    f.read(&mut buf2).unwrap();
    assert_eq!(buf2, [3, 4, 5]);
}

#[test]
fn peek_does_not_consume() {
    let mut f = Fifo::new(8).unwrap();
    f.write(&[10, 20, 30]).unwrap();
    let peeked = f.peek(2).unwrap();
    assert_eq!(peeked, vec![10, 20]);
    assert_eq!(f.readable(), 3);
}

#[test]
fn drain() {
    let mut f = Fifo::new(8).unwrap();
    f.write(&[1, 2, 3, 4]).unwrap();
    f.drain(2).unwrap();
    assert_eq!(f.readable(), 2);
    let mut buf = [0u8; 2];
    f.read(&mut buf).unwrap();
    assert_eq!(buf, [3, 4]);
}

#[test]
fn reset() {
    let mut f = Fifo::new(8).unwrap();
    f.write(&[1, 2]).unwrap();
    f.reset();
    assert!(f.is_empty());
    assert_eq!(f.writable(), 8);
}

#[test]
fn fill_to_capacity() {
    let mut f = Fifo::new(4).unwrap();
    f.write(&[1, 2, 3, 4]).unwrap();
    assert!(f.is_full());
    assert_eq!(f.writable(), 0);
}

#[test]
fn fifo_write_overflow() {
    let mut f = Fifo::new(4).unwrap();
    f.write(&[1, 2, 3]).unwrap();
    assert!(f.write(&[4, 5]).is_err());
}

#[test]
fn fifo_read_underflow() {
    let mut f = Fifo::new(4).unwrap();
    let mut buf = [0u8; 1];
    assert!(f.read(&mut buf).is_err());
}

#[test]
fn peek_underflow() {
    let f = Fifo::new(4).unwrap();
    assert!(f.peek(1).is_err());
}

#[test]
fn fifo_drain_underflow() {
    let mut f = Fifo::new(4).unwrap();
    assert!(f.drain(1).is_err());
}

#[test]
fn zero_capacity() {
    assert!(Fifo::new(0).is_err());
}

#[test]
fn single_byte_fifo() {
    let mut f = Fifo::new(1).unwrap();
    f.write(&[42]).unwrap();
    assert!(f.is_full());
    let mut buf = [0u8; 1];
    f.read(&mut buf).unwrap();
    assert_eq!(buf, [42]);
    assert!(f.is_empty());
}

#[test]
fn fifo_reads_back_in_order_across_many_wraps() {
    let mut f = Fifo::new(5).unwrap();
    let mut next_in = 0u8;
    let mut next_out = 0u8;
    for _ in 0..20 {
        f.write(&[next_in, next_in.wrapping_add(1), next_in.wrapping_add(2)]).unwrap();
        next_in = next_in.wrapping_add(3);
        let mut buf = [0u8; 3];
        f.read(&mut buf).unwrap();
        assert_eq!(buf, [next_out, next_out.wrapping_add(1), next_out.wrapping_add(2)]);
        next_out = next_out.wrapping_add(3);
    }
    assert!(f.is_empty());
}

// ── dict ──

#[test]
fn set_and_get() {
    let mut d = Dict::new();
    d.set("title", "Hello");
    assert_eq!(d.get("title"), Some("Hello"));
}

#[test]
fn set_overwrites() {
    let mut d = Dict::new();
    d.set("k", "v1");
    d.set("k", "v2");
    assert_eq!(d.get("k"), Some("v2"));
    assert_eq!(d.len(), 1);
}

#[test]
fn remove_existing() {
    let mut d = Dict::new();
    d.set("k", "v");
    assert_eq!(d.remove("k"), Some("v".into()));
    assert!(d.is_empty());
}

#[test]
fn iteration_order() {
    let mut d = Dict::new();
    d.set("b", "2");
    d.set("a", "1");
    let keys: Vec<&str> = d.iter().into_iter().map(|(k, _)| k).collect();
    assert_eq!(keys, vec!["b", "a"]);
}

#[test]
fn merge() {
    let mut a = Dict::new();
    a.set("x", "1");
    let mut b = Dict::new();
    b.set("x", "2");
    b.set("y", "3");
    a.merge(&b);
    assert_eq!(a.get("x"), Some("2"));
    assert_eq!(a.get("y"), Some("3"));
}

#[test]
fn parse_semicolon_eq() {
    let d = Dict::parse("title=Hello; artist=World", ';', '=');
    assert_eq!(d.get("title"), Some("Hello"));
    assert_eq!(d.get("artist"), Some("World"));
}

#[test]
fn dict_display_format() {
    let mut d = Dict::new();
    d.set("a", "1");
    d.set("b", "2");
    assert_eq!(d.to_string(), "a=1; b=2");
}

#[test]
fn contains_key() {
    let mut d = Dict::new();
    d.set("k", "v");
    assert!(d.contains_key("k"));
    assert!(!d.contains_key("missing"));
}

#[test]
fn clear() {
    let mut d = Dict::new();
    d.set("a", "1");
    d.clear();
    assert!(d.is_empty());
}

#[test]
fn get_missing_key() {
    let d = Dict::new();
    assert_eq!(d.get("missing"), None);
}

#[test]
fn remove_missing_key() {
    let mut d = Dict::new();
    assert_eq!(d.remove("missing"), None);
}

#[test]
fn parse_empty() {
    let d = Dict::parse("", ';', '=');
    assert!(d.is_empty());
}

#[test]
fn parse_no_value() {
    let d = Dict::parse("novalue;k=v", ';', '=');
    assert_eq!(d.len(), 1);
    assert_eq!(d.get("k"), Some("v"));
}

#[test]
fn dict_set_keeps_other_keys() {
    let mut d = Dict::new();
    d.set("a", "1");
    d.set("b", "2");
    d.set("a", "3");
    assert_eq!(d.get("a"), Some("3"));
    assert_eq!(d.get("b"), Some("2"));
    assert_eq!(d.to_string(), "a=3; b=2");
}

// ── channel layout ──

#[test]
fn mono_layout() {
    let l = ChannelLayout::mono();
    assert_eq!(l.nb_channels(), 1);
    assert!(l.is_mono());
    assert!(!l.is_stereo());
    assert_eq!(l.name(), "mono");
}

#[test]
fn stereo_layout() {
    let l = ChannelLayout::stereo();
    assert_eq!(l.nb_channels(), 2);
    assert!(l.is_stereo());
    assert!(!l.is_mono());
    assert_eq!(l.name(), "stereo");
}

#[test]
fn layout_5point1() {
    let l = ChannelLayout::layout_5point1();
    assert_eq!(l.nb_channels(), 6);
    assert!(l.contains(Channel::Lfe));
    assert!(l.contains(Channel::FrontCenter));
    assert_eq!(l.name(), "5.1");
}

#[test]
fn layout_7point1() {
    let l = ChannelLayout::layout_7point1();
    assert_eq!(l.nb_channels(), 8);
    assert!(l.contains(Channel::SideLeft));
    assert!(l.contains(Channel::SideRight));
    assert_eq!(l.name(), "7.1");
}

#[test]
fn channel_by_index() {
    let l = ChannelLayout::stereo();
    assert_eq!(l.channel(0), Some(Channel::FrontLeft));
    assert_eq!(l.channel(1), Some(Channel::FrontRight));
}

#[test]
fn display_standard() {
    assert_eq!(ChannelLayout::mono().to_string(), "mono");
    assert_eq!(ChannelLayout::layout_5point1().to_string(), "5.1");
}

#[test]
fn display_custom() {
    let l = ChannelLayout::from_channels(vec![Channel::FrontLeft, Channel::Lfe]);
    assert_eq!(l.to_string(), "FL+LFE");
}

#[test]
fn channel_layout_from_name_valid() {
    assert_eq!(ChannelLayout::from_name("stereo"), Some(ChannelLayout::stereo()));
    assert_eq!(ChannelLayout::from_name("5.1"), Some(ChannelLayout::layout_5point1()));
    assert_eq!(ChannelLayout::from_name("surround"), Some(ChannelLayout::surround()));
    assert_eq!(ChannelLayout::from_name("quad"), Some(ChannelLayout::quad()));
}

#[test]
fn standard_layouts_roundtrip_name() {
    let layouts = [
        ("mono", ChannelLayout::mono()),
        ("stereo", ChannelLayout::stereo()),
        ("2.1", ChannelLayout::layout_2point1()),
        ("5.0", ChannelLayout::layout_5point0()),
        ("5.1", ChannelLayout::layout_5point1()),
        ("7.1", ChannelLayout::layout_7point1()),
    ];
    for (name, layout) in &layouts {
        assert_eq!(layout.name(), *name);
        assert_eq!(ChannelLayout::from_name(name).as_ref(), Some(layout));
    }
}

#[test]
fn channel_layout_equality() {
    assert_eq!(ChannelLayout::stereo(), ChannelLayout::stereo());
    assert_ne!(ChannelLayout::mono(), ChannelLayout::stereo());
}

#[test]
fn contains_channel() {
    let l = ChannelLayout::stereo();
    assert!(l.contains(Channel::FrontLeft));
    assert!(!l.contains(Channel::Lfe));
}

#[test]
fn channel_names() {
    assert_eq!(Channel::FrontLeft.name(), "FL");
    assert_eq!(Channel::Lfe.name(), "LFE");
    assert_eq!(Channel::SideRight.name(), "SR");
}

#[test]
fn channel_layout_from_name_invalid() {
    assert_eq!(ChannelLayout::from_name("11.1"), None);
    assert_eq!(ChannelLayout::from_name(""), None);
}

#[test]
fn channel_index_out_of_bounds() {
    let l = ChannelLayout::mono();
    assert_eq!(l.channel(1), None);
    assert_eq!(l.channel(100), None);
}

#[test]
fn empty_custom_layout() {
    let l = ChannelLayout::from_channels(vec![]);
    assert_eq!(l.nb_channels(), 0);
    assert!(!l.is_mono());
    assert!(!l.is_stereo());
    assert_eq!(l.name(), "custom");
}

// ── audio fifo ──

#[test]
fn new_interleaved() {
    let af = AudioFifo::new(SampleFormat::S16, 2, 1024).unwrap();
    assert_eq!(af.capacity(), 1024);
    assert_eq!(af.queued_samples(), 0);
    assert_eq!(af.available_space(), 1024);
    assert!(af.is_empty());
    assert_eq!(af.channels(), 2);
    assert_eq!(af.format(), SampleFormat::S16);
}

#[test]
fn write_and_read_interleaved() {
    let mut af = AudioFifo::new(SampleFormat::S16, 2, 1024).unwrap();
    let src = vec![42u8; 400];
    af.write(&[&src], 100).unwrap();
    assert_eq!(af.queued_samples(), 100);
    let mut dst = vec![vec![0u8; 400]];
    af.read(&mut dst, 100).unwrap();
    assert_eq!(dst[0][0], 42);
    assert!(af.is_empty());
}

#[test]
fn write_and_read_planar() {
    let mut af = AudioFifo::new(SampleFormat::F32p, 2, 512).unwrap();
    let src_l = vec![1u8; 512 * 4];
    let src_r = vec![2u8; 512 * 4];
    af.write(&[&src_l, &src_r], 512).unwrap();
    assert_eq!(af.queued_samples(), 512);
    let mut dst = vec![vec![0u8; 512 * 4], vec![0u8; 512 * 4]];
    af.read(&mut dst, 512).unwrap();
    assert_eq!(dst[0][0], 1);
    assert_eq!(dst[1][0], 2);
}

#[test]
fn partial_read() {
    let mut af = AudioFifo::new(SampleFormat::S16, 1, 1024).unwrap();
    let src = vec![0xABu8; 2048];
    af.write(&[&src], 1024).unwrap();
    let mut dst = vec![vec![0u8; 200]];
    af.read(&mut dst, 100).unwrap();
    assert_eq!(af.queued_samples(), 924);
    assert_eq!(dst[0][0], 0xAB);
}

#[test]
fn audio_fifo_wrap_around() {
    let mut af = AudioFifo::new(SampleFormat::U8, 1, 4).unwrap();
    let src = vec![1, 2, 3];
    af.write(&[&src], 3).unwrap();
    let mut dst = vec![vec![0u8; 2]];
    af.read(&mut dst, 2).unwrap();
    assert_eq!(dst[0], [1, 2]);
    let src2 = vec![4, 5, 6];
    af.write(&[&src2], 3).unwrap();
    assert_eq!(af.queued_samples(), 4);
    let mut dst2 = vec![vec![0u8; 4]];
    af.read(&mut dst2, 4).unwrap();
    assert_eq!(dst2[0], [3, 4, 5, 6]);
}

#[test]
fn drain_samples() {
    let mut af = AudioFifo::new(SampleFormat::S16, 1, 100).unwrap();
    let src = vec![0u8; 200];
    af.write(&[&src], 100).unwrap();
    af.drain(50).unwrap();
    assert_eq!(af.queued_samples(), 50);
}

#[test]
fn reset_clears() {
    let mut af = AudioFifo::new(SampleFormat::S16, 1, 100).unwrap();
    let src = vec![0u8; 200];
    af.write(&[&src], 100).unwrap();
    af.reset();
    assert!(af.is_empty());
    assert_eq!(af.available_space(), 100);
}

#[test]
fn new_zero_channels() {
    assert!(AudioFifo::new(SampleFormat::S16, 0, 100).is_err());
}

#[test]
fn new_zero_capacity() {
    assert!(AudioFifo::new(SampleFormat::S16, 2, 0).is_err());
}

#[test]
fn audio_fifo_write_overflow() {
    let mut af = AudioFifo::new(SampleFormat::U8, 1, 4).unwrap();
    let src = vec![0u8; 4];
    af.write(&[&src], 4).unwrap();
    assert!(af.write(&[&[0u8]], 1).is_err());
}

#[test]
fn audio_fifo_read_underflow() {
    let mut af = AudioFifo::new(SampleFormat::U8, 1, 4).unwrap();
    let mut dst = vec![vec![0u8; 1]];
    assert!(af.read(&mut dst, 1).is_err());
}

#[test]
fn write_wrong_plane_count() {
    let mut af = AudioFifo::new(SampleFormat::F32p, 2, 100).unwrap();
    let src = vec![0u8; 400];
    assert!(af.write(&[&src], 100).is_err());
}

#[test]
fn audio_fifo_drain_underflow() {
    let mut af = AudioFifo::new(SampleFormat::U8, 1, 4).unwrap();
    assert!(af.drain(1).is_err());
}

#[test]
fn write_zero_samples() {
    let mut af = AudioFifo::new(SampleFormat::S16, 2, 100).unwrap();
    af.write(&[&[]], 0).unwrap();
    assert!(af.is_empty());
}

#[test]
fn read_zero_samples() {
    let mut af = AudioFifo::new(SampleFormat::S16, 2, 100).unwrap();
    let mut dst: Vec<Vec<u8>> = vec![vec![]];
    af.read(&mut dst, 0).unwrap();
}

// ── buffer ──

#[test]
fn buffer_alloc_zeroed() {
    let buf = Buffer::allocate(16).unwrap();
    assert_eq!(buf.len(), 16);
    assert!(buf.data().iter().all(|&b| b == 0));
}

#[test]
fn from_vec() {
    let buf = Buffer::from_vec(vec![1, 2, 3]);
    assert_eq!(buf.data(), &[1, 2, 3]);
}

#[test]
fn from_slice() {
    let buf = Buffer::from_slice(&[10, 20]);
    assert_eq!(buf.data(), &[10, 20]);
}

#[test]
fn clone_shares_data() {
    let a = Buffer::from_vec(vec![1, 2, 3]);
    let b = a.clone();
    assert_eq!(a.data(), b.data());
    assert_eq!(a.ref_count(), 2);
    assert_eq!(b.ref_count(), 2);
}

#[test]
fn is_writable_single_ref() {
    let buf = Buffer::from_vec(vec![1]);
    assert!(buf.is_writable());
}

#[test]
fn not_writable_after_clone() {
    let a = Buffer::from_vec(vec![1]);
    let _b = a.clone();
    assert!(!a.is_writable());
}

#[test]
fn make_writable_single_ref_no_copy() {
    let mut buf = Buffer::from_vec(vec![1, 2, 3]);
    let ptr_before = buf.data().as_ptr();
    let data = buf.make_writable();
    data[0] = 99;
    assert_eq!(buf.data().as_ptr(), ptr_before);
    assert_eq!(buf.data()[0], 99);
}

#[test]
fn make_writable_cow_on_shared() {
    let a = Buffer::from_vec(vec![1, 2, 3]);
    let mut b = a.clone();
    assert_eq!(a.ref_count(), 2);
    let data = b.make_writable();
    data[0] = 99;
    assert_eq!(a.data(), &[1, 2, 3]);
    assert_eq!(b.data(), &[99, 2, 3]);
    assert!(b.is_writable());
}

#[test]
fn resize_grow() {
    let mut buf = Buffer::from_vec(vec![1, 2]);
    buf.resize(4);
    assert_eq!(buf.data(), &[1, 2, 0, 0]);
}

#[test]
fn resize_shrink() {
    let mut buf = Buffer::from_vec(vec![1, 2, 3, 4]);
    buf.resize(2);
    assert_eq!(buf.data(), &[1, 2]);
}

#[test]
fn buffer_equality() {
    let a = Buffer::from_vec(vec![1, 2, 3]);
    let b = Buffer::from_slice(&[1, 2, 3]);
    assert_eq!(a, b);
}

#[test]
fn as_ref_slice() {
    let buf = Buffer::from_vec(vec![5, 6]);
    let s: &[u8] = buf.as_ref();
    assert_eq!(s, &[5, 6]);
}

#[test]
fn alloc_zero_size() {
    let buf = Buffer::allocate(0).unwrap();
    assert_eq!(buf.len(), 0);
    assert!(buf.is_empty());
}

#[test]
fn empty_buffer() {
    let buf = Buffer::from_vec(Vec::new());
    assert!(buf.is_empty());
    assert_eq!(buf.len(), 0);
    assert_eq!(buf.data(), &[] as &[u8]);
}

#[test]
fn drop_cloned_restores_writable() {
    let a = Buffer::from_vec(vec![1]);
    let b = a.clone();
    assert!(!a.is_writable());
    drop(b);
    assert!(a.is_writable());
}

#[test]
fn pool_get_returns_correct_size() {
    let mut pool = BufferPool::new(64, 4).unwrap();
    let buf = pool.get().unwrap();
    assert_eq!(buf.len(), 64);
    assert!(buf.data().iter().all(|&b| b == 0));
}

#[test]
fn pool_put_and_reuse() {
    let mut pool = BufferPool::new(32, 4).unwrap();
    let buf = pool.get().unwrap();
    assert_eq!(pool.cached_count(), 0);
    pool.put(buf);
    assert_eq!(pool.cached_count(), 1);
    let buf2 = pool.get().unwrap();
    assert_eq!(buf2.len(), 32);
    assert_eq!(pool.cached_count(), 0);
}

#[test]
fn pool_put_zeroes_on_reuse() {
    let mut pool = BufferPool::new(4, 4).unwrap();
    let mut buf = pool.get().unwrap();
    buf.make_writable().copy_from_slice(&[1, 2, 3, 4]);
    pool.put(buf);
    let buf2 = pool.get().unwrap();
    assert!(buf2.data().iter().all(|&b| b == 0));
}

#[test]
fn pool_respects_max_count() {
    let mut pool = BufferPool::new(8, 2).unwrap();
    let b1 = pool.get().unwrap();
    let b2 = pool.get().unwrap();
    let b3 = pool.get().unwrap();
    pool.put(b1);
    pool.put(b2);
    pool.put(b3);
    assert_eq!(pool.cached_count(), 2);
}

#[test]
fn pool_rejects_shared_buffer() {
    let mut pool = BufferPool::new(8, 4).unwrap();
    let buf = pool.get().unwrap();
    let _clone = buf.clone();
    pool.put(buf);
    assert_eq!(pool.cached_count(), 0);
}

#[test]
fn pool_rejects_wrong_size() {
    let mut pool = BufferPool::new(8, 4).unwrap();
    let buf = Buffer::from_vec(vec![0; 16]);
    pool.put(buf);
    assert_eq!(pool.cached_count(), 0);
}

#[test]
fn pool_buffer_size() {
    let pool = BufferPool::new(1024, 8).unwrap();
    assert_eq!(pool.buffer_size(), 1024);
}

#[test]
fn pool_debug_format() {
    let pool = BufferPool::new(16, 4).unwrap();
    let dbg = format!("{pool:?}");
    assert!(dbg.contains("BufferPool"));
}

#[test]
fn pool_zero_max_count() {
    assert!(BufferPool::new(8, 0).is_err());
}

#[test]
fn pool_concurrent_get_put() {
    let pool = std::sync::Arc::new(std::sync::Mutex::new(BufferPool::new(64, 8).unwrap()));
    for _ in 0..8 {
        let pool = std::sync::Arc::clone(&pool);
        for _ in 0..100 {
            let buf = pool.lock().unwrap().get().unwrap();
            assert_eq!(buf.len(), 64);
            pool.lock().unwrap().put(buf);
        }
    }
    assert!(pool.lock().unwrap().cached_count() <= 8);
}

#[test]
fn buffer_send_across_threads() {
    let buf = Buffer::from_vec(vec![42, 43, 44]);
    let moved = move || {
        assert_eq!(buf.data(), &[42, 43, 44]);
        buf
    };
    let buf = moved();
    assert_eq!(buf.data(), &[42, 43, 44]);
}

#[test]
fn buffer_shared_across_threads() {
    let buf = std::sync::Arc::new(Buffer::from_vec(vec![1, 2, 3]));
    for _ in 0..4 {
        let buf = std::sync::Arc::clone(&buf);
        assert_eq!(buf.data(), &[1, 2, 3]);
    }
}

// ── frame ──

#[test]
fn new_video_basic() {
    let f = Frame::new_video(1920, 1080).unwrap();
    assert_eq!(f.media_type, MediaType::Video);
    assert_eq!(f.width, 1920);
    assert_eq!(f.height, 1080);
    assert_eq!(f.plane_count(), 0);
}

#[test]
fn new_audio_basic() {
    let f = Frame::new_audio(48000, 2, 1024).unwrap();
    assert_eq!(f.media_type, MediaType::Audio);
    assert_eq!(f.sample_rate, 48000);
    assert_eq!(f.channels, 2);
    assert_eq!(f.nb_samples, 1024);
}

#[test]
fn set_and_get_plane() {
    let mut f = Frame::new_video(4, 2).unwrap();
    let buf = Buffer::from_vec(vec![10, 20, 30, 40, 50, 60, 70, 80]);
    f.set_plane(0, buf, 4).unwrap();
    assert_eq!(f.plane_count(), 1);
    assert_eq!(f.plane(0).unwrap(), &[10, 20, 30, 40, 50, 60, 70, 80]);
    assert_eq!(f.linesize[0], 4);
}

#[test]
fn set_multiple_planes() {
    let mut f = Frame::new_video(2, 2).unwrap();
    f.set_plane(0, Buffer::from_vec(vec![1; 4]), 2).unwrap();
    f.set_plane(1, Buffer::from_vec(vec![2; 1]), 1).unwrap();
    f.set_plane(2, Buffer::from_vec(vec![3; 1]), 1).unwrap();
    assert_eq!(f.plane_count(), 3);
}

#[test]
fn plane_mut_modifies_data() {
    let mut f = Frame::new_video(2, 2).unwrap();
    f.set_plane(0, Buffer::from_vec(vec![0; 4]), 2).unwrap();
    let data = f.plane_mut(0).unwrap();
    data[0] = 255;
    assert_eq!(f.plane(0).unwrap()[0], 255);
}

#[test]
fn frame_clone_is_independent() {
    let mut f = Frame::new_video(2, 2).unwrap();
    f.set_plane(0, Buffer::from_vec(vec![1, 2, 3, 4]), 2).unwrap();
    f.pts = Some(100);
    let f2 = f.clone();
    assert_eq!(f2.pts, Some(100));
    assert_eq!(f2.plane(0).unwrap(), &[1, 2, 3, 4]);
}

#[test]
fn pts_and_duration() {
    let mut f = Frame::new_video(4, 4).unwrap();
    f.pts = Some(1000);
    f.duration = Some(33);
    f.time_base = Rational::new(1, 30);
    f.key_frame = true;
    assert_eq!(f.pts, Some(1000));
    assert_eq!(f.duration, Some(33));
    assert!(f.key_frame);
}

#[test]
fn frame_reset_clears_all() {
    let mut f = Frame::new_video(4, 4).unwrap();
    f.set_plane(0, Buffer::from_vec(vec![1; 16]), 4).unwrap();
    f.pts = Some(100);
    f.add_side_data(SideDataType::DisplayMatrix, Buffer::from_vec(vec![0; 36]));
    f.reset();
    assert_eq!(f.plane_count(), 0);
    assert_eq!(f.pts, None);
    assert_eq!(f.side_data_count(), 0);
    assert_eq!(f.media_type, MediaType::Video);
    assert_eq!(f.width, 4);
}

#[test]
fn frame_side_data_replaces_same_type() {
    let mut f = Frame::new_video(4, 4).unwrap();
    f.add_side_data(SideDataType::DisplayMatrix, Buffer::from_vec(vec![1]));
    f.add_side_data(SideDataType::DisplayMatrix, Buffer::from_vec(vec![2]));
    assert_eq!(f.side_data_count(), 1);
    assert_eq!(f.get_side_data(SideDataType::DisplayMatrix).unwrap().data.data(), &[2]);
    assert!(f.remove_side_data(SideDataType::DisplayMatrix));
    assert!(!f.remove_side_data(SideDataType::DisplayMatrix));
}

// ── frame edge cases ──

#[test]
fn frame_new_video_zero_width() {
    assert!(Frame::new_video(0, 100).is_err());
}

#[test]
fn frame_new_video_zero_height() {
    assert!(Frame::new_video(100, 0).is_err());
}

#[test]
fn frame_new_audio_zero_sample_rate() {
    assert!(Frame::new_audio(0, 2, 1024).is_err());
}

#[test]
fn frame_new_audio_zero_channels() {
    assert!(Frame::new_audio(48000, 0, 1024).is_err());
}

#[test]
fn set_plane_out_of_range() {
    let mut f = Frame::new_video(4, 4).unwrap();
    assert!(f.set_plane(MAX_PLANES, Buffer::from_vec(vec![0]), 1).is_err());
}

#[test]
fn plane_mut_not_set() {
    let mut f = Frame::new_video(4, 4).unwrap();
    assert!(f.plane_mut(0).is_err());
}

#[test]
fn plane_out_of_bounds_returns_none() {
    let f = Frame::new_video(4, 4).unwrap();
    assert!(f.plane(MAX_PLANES).is_none());
    assert!(f.plane(0).is_none());
}

#[test]
fn add_and_get_side_data() {
    let mut f = Frame::new_video(4, 4).unwrap();
    let buf = Buffer::from_vec(vec![1, 2, 3]);
    f.add_side_data(SideDataType::DisplayMatrix, buf.clone());
    let sd = f.get_side_data(SideDataType::DisplayMatrix).unwrap();
    assert_eq!(sd.data, buf);
    assert_eq!(f.side_data_count(), 1);
}

#[test]
fn add_replaces_same_type() {
    let mut f = Frame::new_video(4, 4).unwrap();
    f.add_side_data(SideDataType::DisplayMatrix, Buffer::from_vec(vec![1]));
    f.add_side_data(SideDataType::DisplayMatrix, Buffer::from_vec(vec![2]));
    assert_eq!(f.side_data_count(), 1);
    let sd = f.get_side_data(SideDataType::DisplayMatrix).unwrap();
    assert_eq!(sd.data.data(), &[2]);
}

#[test]
fn multiple_side_data_types() {
    let mut f = Frame::new_video(4, 4).unwrap();
    f.add_side_data(SideDataType::DisplayMatrix, Buffer::from_vec(vec![1]));
    f.add_side_data(SideDataType::ContentLightLevel, Buffer::from_vec(vec![2]));
    assert_eq!(f.side_data_count(), 2);
}

#[test]
fn remove_side_data_existing() {
    let mut f = Frame::new_video(4, 4).unwrap();
    f.add_side_data(SideDataType::DisplayMatrix, Buffer::from_vec(vec![1]));
    assert!(f.remove_side_data(SideDataType::DisplayMatrix));
    assert_eq!(f.side_data_count(), 0);
}

#[test]
fn frame_get_nonexistent_side_data() {
    let f = Frame::new_video(4, 4).unwrap();
    assert!(f.get_side_data(SideDataType::MotionVectors).is_none());
}

#[test]
fn frame_remove_nonexistent_side_data() {
    let mut f = Frame::new_video(4, 4).unwrap();
    assert!(!f.remove_side_data(SideDataType::MotionVectors));
}

#[test]
fn frame_send_across_threads() {
    let mut f = Frame::new_video(4, 4).unwrap();
    f.set_plane(0, Buffer::from_vec(vec![42; 16]), 4).unwrap();
    f.pts = Some(999);
    let moved = f;
    assert_eq!(moved.plane(0).unwrap()[0], 42);
    assert_eq!(moved.pts, Some(999));
}

#[test]
fn send_and_sync_traits() {
    fn assert_send<T: Send>() {}
    assert_send::<Frame>();
}

#[test]
fn audio_zero_samples_allowed() {
    let f = Frame::new_audio(48000, 2, 0).unwrap();
    assert_eq!(f.nb_samples, 0);
}

// ── thread-safety markers ──

#[test]
fn rational_send_and_sync() {
    fn assert_send<T: Send>() {}
    fn assert_sync<T: Sync>() {}
    assert_send::<Rational>();
    assert_sync::<Rational>();
}

#[test]
fn buffer_send_and_sync() {
    fn assert_send<T: Send>() {}
    fn assert_sync<T: Sync>() {}
    assert_send::<Buffer>();
    assert_sync::<Buffer>();
}

#[test]
fn debug_format() {
    let buf = Buffer::allocate(8).unwrap();
    let dbg = buf.debug_text();
    assert!(dbg.contains("Buffer"));
    assert!(dbg.contains("len: 8"));
}

#[test]
fn audio_fifo_read_short_plane_fills_planes_before_it() {
    let mut af = AudioFifo::new(SampleFormat::U8p, 2, 8).unwrap();
    af.write(&[&[1u8, 2, 3], &[4u8, 5, 6]], 3).unwrap();
    let mut dst = vec![vec![0u8; 3], vec![9u8; 2]];
    assert!(matches!(af.read(&mut dst, 3), Err(Error::InvalidArgument(_))));
    assert_eq!(dst[0], [1, 2, 3]);
    assert_eq!(dst[1], [9, 9]);
    assert_eq!(af.queued_samples(), 3);
}

#[test]
fn audio_fifo_write_short_plane_is_invalid_argument() {
    let mut af = AudioFifo::new(SampleFormat::U8p, 2, 8).unwrap();
    assert!(matches!(af.write(&[&[1u8, 2, 3], &[4u8]], 3), Err(Error::InvalidArgument(_))));
    assert_eq!(af.queued_samples(), 0);
    assert!(matches!(af.write(&[&[1u8, 2, 3]], 3), Err(Error::InvalidArgument(_))));
}

#[test]
fn new_fifos_and_pool_succeed_with_room() {
    assert!(AudioFifo::new(SampleFormat::S16, 1, 1).is_ok());
    assert!(Fifo::new(1).is_ok());
    assert!(BufferPool::new(0, 1).is_ok());
}
