use std::cmp::Ordering;

use justav::util::hash::{hash, hash_hex, HashAlgorithm, HashContext};
use justav::util::imgutils::{fill_plane_black, image_buffer_size, image_line_size};
use justav::util::log::{default_log_level, passes_filter, LogLevel};
use justav::util::mathematics::{compare_ts, gcd, rescale, rescale_q, rescale_rnd, Rounding};
use justav::util::pixfmt::{PixelFormat, ALL_PIXEL_FORMATS};
use justav::util::rational::{next_convergent, rational_of_convergent, Rational};
use justav::util::samplefmt::{SampleFormat, ALL_SAMPLE_FORMATS};
use justav::util::samples::{alloc_samples, copy, silence};
use justav::util::timestamp::Timestamp;

fn tb_ms() -> Rational {
    Rational::new(1, 1000)
}

fn tb_us() -> Rational {
    Rational::new(1, 1_000_000)
}

fn tb_90k() -> Rational {
    Rational::new(1, 90000)
}

// ── rational ──

#[test]
fn new_and_display() {
    assert_eq!(Rational::new(1, 30).to_string(), "1/30");
}

#[test]
fn reduce_basic() {
    assert_eq!(Rational::new(6, 4).reduce().unwrap(), Rational::new(3, 2));
}

#[test]
fn reduce_negative_den() {
    let r = Rational::new(3, -4).reduce().unwrap();
    assert_eq!(r, Rational::new(-3, 4));
    assert_eq!((r.num, r.den), (-3, 4));
}

#[test]
fn reduce_zero_num() {
    let r = Rational::new(0, 5).reduce().unwrap();
    assert_eq!((r.num, r.den), (0, 1));
}

#[test]
fn add_basic() {
    assert_eq!((Rational::new(1, 4) + Rational::new(1, 4)).unwrap(), Rational::new(1, 2));
}

#[test]
fn sub_basic() {
    assert_eq!((Rational::new(3, 4) - Rational::new(1, 4)).unwrap(), Rational::new(1, 2));
}

#[test]
fn mul_basic() {
    assert_eq!((Rational::new(2, 3) * Rational::new(3, 4)).unwrap(), Rational::new(1, 2));
}

#[test]
fn div_basic() {
    assert_eq!((Rational::new(1, 2) / Rational::new(3, 4)).unwrap(), Rational::new(2, 3));
}

#[test]
fn neg_basic() {
    assert_eq!(-Rational::new(3, 4), Rational::new(-3, 4));
}

#[test]
fn invert_basic() {
    assert_eq!(Rational::new(3, 4).invert().unwrap(), Rational::new(4, 3));
}

#[test]
fn equality_cross_multiply() {
    assert_eq!(Rational::new(2, 4), Rational::new(1, 2));
    assert_eq!(Rational::new(-1, 2), Rational::new(1, -2));
}

#[test]
fn ordering() {
    assert!(Rational::new(1, 3) < Rational::new(1, 2));
    assert!(Rational::new(2, 3) > Rational::new(1, 2));
}

#[test]
fn is_valid() {
    assert!(Rational::new(1, 2).is_valid());
    assert!(Rational::zero().is_valid());
}

#[test]
fn reduce_zero_den() {
    assert!(Rational::new(1, 0).reduce().is_err());
}

#[test]
fn div_by_zero() {
    assert!((Rational::new(1, 2) / Rational::new(0, 1)).is_err());
}

#[test]
fn invert_zero() {
    assert!(Rational::new(0, 1).invert().is_err());
}

#[test]
fn add_invalid() {
    assert!((Rational::new(1, 2) + Rational::unknown()).is_err());
}

#[test]
fn unknown_is_not_valid() {
    assert!(!Rational::unknown().is_valid());
}

#[test]
fn unknown_not_equal_to_itself() {
    assert_ne!(Rational::unknown(), Rational::unknown());
}

#[test]
fn unknown_no_ordering() {
    assert!(Rational::unknown().partial_cmp(&Rational::new(1, 2)).is_none());
}

#[test]
fn i32_max_reduce() {
    assert_eq!(Rational::new(i32::MAX, i32::MAX).reduce().unwrap(), Rational::new(1, 1));
}

#[test]
fn large_values_multiply() {
    assert_eq!((Rational::new(30000, 1) * Rational::new(1, 30000)).unwrap(), Rational::new(1, 1));
}

#[test]
fn add_result_is_reduced() {
    let r = (Rational::new(1, 6) + Rational::new(1, 3)).unwrap();
    assert_eq!((r.num, r.den), (1, 2));
}

// ── mathematics ──

#[test]
fn gcd_basic() {
    assert_eq!(gcd(12, 8), 4);
    assert_eq!(gcd(7, 13), 1);
    assert_eq!(gcd(0, 5), 5);
}

#[test]
fn gcd_negative() {
    assert_eq!(gcd(-12, 8), 4);
    assert_eq!(gcd(12, -8), 4);
}

#[test]
fn rescale_simple() {
    assert_eq!(rescale(90000, 1000, 90000).unwrap(), 1000);
}

#[test]
fn rescale_rounding_near() {
    assert_eq!(rescale_rnd(1, 2, 3, Rounding::NearInf).unwrap(), 1);
}

#[test]
fn rescale_rounding_zero() {
    assert_eq!(rescale_rnd(1, 2, 3, Rounding::Zero).unwrap(), 0);
}

#[test]
fn rescale_rounding_up() {
    assert_eq!(rescale_rnd(1, 2, 3, Rounding::Up).unwrap(), 1);
}

#[test]
fn rescale_rounding_down() {
    assert_eq!(rescale_rnd(1, 2, 3, Rounding::Down).unwrap(), 0);
}

#[test]
fn rescale_rounding_negative() {
    assert_eq!(rescale_rnd(-1, 2, 3, Rounding::Down).unwrap(), -1);
    assert_eq!(rescale_rnd(-1, 2, 3, Rounding::Up).unwrap(), 0);
    assert_eq!(rescale_rnd(-1, 2, 3, Rounding::Zero).unwrap(), 0);
    assert_eq!(rescale_rnd(-1, 2, 3, Rounding::NearInf).unwrap(), -1);
}

#[test]
fn rescale_negative_value() {
    assert_eq!(rescale(-90000, 1000, 90000).unwrap(), -1000);
}

#[test]
fn rescale_q_basic() {
    assert_eq!(rescale_q(48000, Rational::new(1, 48000), Rational::new(1, 1000)).unwrap(), 1000);
}

#[test]
fn rescale_q_frame_rate_conversion() {
    assert_eq!(rescale_q(30, Rational::new(1, 30), Rational::new(1, 60)).unwrap(), 60);
}

#[test]
fn compare_ts_equal() {
    assert_eq!(compare_ts(500, tb_ms(), 500_000, tb_us()).unwrap(), Ordering::Equal);
}

#[test]
fn compare_ts_less() {
    assert_eq!(compare_ts(499, tb_ms(), 500_000, tb_us()).unwrap(), Ordering::Less);
}

#[test]
fn compare_ts_greater() {
    assert_eq!(compare_ts(501, tb_ms(), 500_000, tb_us()).unwrap(), Ordering::Greater);
}

#[test]
fn rescale_zero_src() {
    assert_eq!(rescale(100, 0, 1).unwrap(), 0);
}

#[test]
fn rescale_zero_dst() {
    assert!(rescale(100, 1, 0).is_err());
}

#[test]
fn rescale_q_invalid_timebase() {
    let valid = Rational::new(1, 1000);
    let invalid = Rational::unknown();
    assert!(rescale_q(100, valid, invalid).is_err());
    assert!(rescale_q(100, invalid, valid).is_err());
}

#[test]
fn compare_ts_invalid_timebase() {
    assert!(compare_ts(100, Rational::new(1, 1000), 100, Rational::unknown()).is_err());
}

#[test]
fn rescale_large_values_no_overflow() {
    assert_eq!(rescale(i64::MAX / 2, 2, 1).unwrap(), i64::MAX - 1);
}

#[test]
fn rescale_identity() {
    assert_eq!(rescale(12345, 1, 1).unwrap(), 12345);
}

#[test]
fn gcd_both_zero() {
    assert_eq!(gcd(0, 0), 1);
}

#[test]
fn compare_ts_zero_timestamps() {
    let tb = Rational::new(1, 1000);
    assert_eq!(compare_ts(0, tb, 0, tb).unwrap(), Ordering::Equal);
}

#[test]
fn compare_ts_negative() {
    let tb = Rational::new(1, 1000);
    assert_eq!(compare_ts(-100, tb, 100, tb).unwrap(), Ordering::Less);
}

// ── timestamps ──

#[test]
fn new_and_valid() {
    let ts = Timestamp::new(1000, tb_ms());
    assert!(ts.is_valid());
    assert_eq!(ts.value, 1000);
}

#[test]
fn rescale_ms_to_us() {
    let ts2 = Timestamp::new(500, tb_ms()).rescale(tb_us()).unwrap();
    assert_eq!(ts2.value, 500_000);
    assert_eq!(ts2.time_base, tb_us());
}

#[test]
fn rescale_90k_to_ms() {
    let ts2 = Timestamp::new(90000, tb_90k()).rescale(tb_ms()).unwrap();
    assert_eq!(ts2.value, 1000);
}

#[test]
fn equality_different_timebases() {
    assert_eq!(Timestamp::new(500, tb_ms()), Timestamp::new(500_000, tb_us()));
}

#[test]
fn ordering_different_timebases() {
    assert!(Timestamp::new(499, tb_ms()) < Timestamp::new(500_000, tb_us()));
}

#[test]
fn none_is_not_valid() {
    assert!(!Timestamp::none().is_valid());
}

#[test]
fn rescale_invalid_timestamp() {
    assert!(Timestamp::none().rescale(tb_ms()).is_err());
}

#[test]
fn nopts_not_equal_to_itself() {
    assert_ne!(Timestamp::none(), Timestamp::none());
}

#[test]
fn nopts_no_ordering() {
    assert!(Timestamp::none().partial_cmp(&Timestamp::new(0, tb_ms())).is_none());
}

// ── sample formats ──

#[test]
fn bytes_per_sample() {
    assert_eq!(SampleFormat::U8.bytes_per_sample(), 1);
    assert_eq!(SampleFormat::S16.bytes_per_sample(), 2);
    assert_eq!(SampleFormat::S32.bytes_per_sample(), 4);
    assert_eq!(SampleFormat::F32.bytes_per_sample(), 4);
    assert_eq!(SampleFormat::F64.bytes_per_sample(), 8);
}

#[test]
fn planar_variants_match() {
    assert_eq!(SampleFormat::U8p.bytes_per_sample(), 1);
    assert_eq!(SampleFormat::S16p.bytes_per_sample(), 2);
    assert_eq!(SampleFormat::F32p.bytes_per_sample(), 4);
}

#[test]
fn is_planar() {
    assert!(!SampleFormat::S16.is_planar());
    assert!(SampleFormat::S16p.is_planar());
    assert!(!SampleFormat::F32.is_planar());
    assert!(SampleFormat::F32p.is_planar());
}

#[test]
fn is_interleaved() {
    assert!(SampleFormat::S16.is_interleaved());
    assert!(!SampleFormat::S16p.is_interleaved());
}

#[test]
fn is_float() {
    assert!(!SampleFormat::S16.is_float());
    assert!(SampleFormat::F32.is_float());
    assert!(SampleFormat::F64p.is_float());
}

#[test]
fn to_planar_and_back() {
    assert_eq!(SampleFormat::S16.to_planar(), SampleFormat::S16p);
    assert_eq!(SampleFormat::S16p.to_interleaved(), SampleFormat::S16);
    assert_eq!(SampleFormat::F32p.to_planar(), SampleFormat::F32p);
    assert_eq!(SampleFormat::F32.to_interleaved(), SampleFormat::F32);
}

#[test]
fn buffer_size_interleaved() {
    assert_eq!(SampleFormat::S16.buffer_size(1024, 2), 4096);
}

#[test]
fn buffer_size_planar() {
    assert_eq!(SampleFormat::S16p.buffer_size(1024, 2), 2048);
}

#[test]
fn samplefmt_display_format() {
    assert_eq!(SampleFormat::S16.name(), "s16");
    assert_eq!(SampleFormat::F32p.name(), "fltp");
}

#[test]
fn samplefmt_from_name_valid() {
    assert_eq!(SampleFormat::from_name("s16"), Some(SampleFormat::S16));
    assert_eq!(SampleFormat::from_name("fltp"), Some(SampleFormat::F32p));
}

#[test]
fn samplefmt_all_formats_roundtrip_name() {
    for fmt in ALL_SAMPLE_FORMATS.iter() {
        assert_eq!(SampleFormat::from_name(fmt.name()), Some(*fmt));
    }
}

#[test]
fn samplefmt_from_name_invalid() {
    assert_eq!(SampleFormat::from_name("pcm16"), None);
    assert_eq!(SampleFormat::from_name(""), None);
}

#[test]
fn buffer_size_zero_samples() {
    assert_eq!(SampleFormat::S16.buffer_size(0, 2), 0);
}

// ── sample buffers ──

#[test]
fn alloc_interleaved_s16() {
    let bufs = alloc_samples(SampleFormat::S16, 2, 1024).unwrap();
    assert_eq!(bufs.len(), 1);
    assert_eq!(bufs[0].len(), 1024 * 2 * 2);
}

#[test]
fn alloc_planar_f32() {
    let bufs = alloc_samples(SampleFormat::F32p, 2, 1024).unwrap();
    assert_eq!(bufs.len(), 2);
    assert_eq!(bufs[0].len(), 1024 * 4);
    assert_eq!(bufs[1].len(), 1024 * 4);
}

#[test]
fn samples_alloc_zeroed() {
    let bufs = alloc_samples(SampleFormat::S16, 1, 100).unwrap();
    assert!(bufs[0].iter().all(|&b| b == 0));
}

#[test]
fn copy_interleaved() {
    let mut src = alloc_samples(SampleFormat::S16, 2, 512).unwrap();
    let mut dst = alloc_samples(SampleFormat::S16, 2, 512).unwrap();
    src[0][0] = 42;
    src[0][100] = 99;
    copy(&mut dst, &src, SampleFormat::S16, 2, 512).unwrap();
    assert_eq!(dst[0][0], 42);
    assert_eq!(dst[0][100], 99);
}

#[test]
fn copy_planar() {
    let mut src = alloc_samples(SampleFormat::S16p, 2, 256).unwrap();
    src[0][0] = 10;
    src[1][0] = 20;
    let mut dst = alloc_samples(SampleFormat::S16p, 2, 256).unwrap();
    copy(&mut dst, &src, SampleFormat::S16p, 2, 256).unwrap();
    assert_eq!(dst[0][0], 10);
    assert_eq!(dst[1][0], 20);
}

#[test]
fn silence_s16() {
    let mut bufs = alloc_samples(SampleFormat::S16, 2, 512).unwrap();
    bufs[0].fill(0xFF);
    silence(&mut bufs, SampleFormat::S16, 2, 512).unwrap();
    assert!(bufs[0].iter().all(|&b| b == 0));
}

#[test]
fn silence_u8_is_0x80() {
    let mut bufs = alloc_samples(SampleFormat::U8, 1, 100).unwrap();
    silence(&mut bufs, SampleFormat::U8, 1, 100).unwrap();
    assert!(bufs[0].iter().all(|&b| b == 0x80));
}

#[test]
fn silence_u8p_is_0x80() {
    let mut bufs = alloc_samples(SampleFormat::U8p, 2, 100).unwrap();
    silence(&mut bufs, SampleFormat::U8p, 2, 100).unwrap();
    assert!(bufs[0].iter().all(|&b| b == 0x80));
    assert!(bufs[1].iter().all(|&b| b == 0x80));
}

#[test]
fn silence_f32_is_zero() {
    let mut bufs = alloc_samples(SampleFormat::F32, 2, 100).unwrap();
    bufs[0].fill(0xFF);
    silence(&mut bufs, SampleFormat::F32, 2, 100).unwrap();
    assert!(bufs[0].iter().all(|&b| b == 0));
}

#[test]
fn alloc_zero_channels() {
    assert!(alloc_samples(SampleFormat::S16, 0, 1024).is_err());
}

#[test]
fn copy_wrong_plane_count() {
    let src = alloc_samples(SampleFormat::S16p, 2, 100).unwrap();
    let mut dst = vec![vec![0u8; 200]];
    assert!(copy(&mut dst, &src, SampleFormat::S16p, 2, 100).is_err());
}

#[test]
fn copy_src_too_small() {
    let src = vec![vec![0u8; 10]];
    let mut dst = alloc_samples(SampleFormat::S16, 2, 100).unwrap();
    assert!(copy(&mut dst, &src, SampleFormat::S16, 2, 100).is_err());
}

#[test]
fn silence_zero_channels() {
    let mut bufs = vec![vec![0u8; 100]];
    assert!(silence(&mut bufs, SampleFormat::S16, 0, 100).is_err());
}

#[test]
fn silence_not_enough_planes() {
    let mut bufs = vec![vec![0u8; 100]];
    assert!(silence(&mut bufs, SampleFormat::S16p, 2, 100).is_err());
}

#[test]
fn alloc_zero_samples() {
    let bufs = alloc_samples(SampleFormat::S16, 2, 0).unwrap();
    assert_eq!(bufs.len(), 1);
    assert!(bufs[0].is_empty());
}

#[test]
fn alloc_zero_samples_planar() {
    let bufs = alloc_samples(SampleFormat::F32p, 2, 0).unwrap();
    assert_eq!(bufs.len(), 2);
    assert!(bufs[0].is_empty());
    assert!(bufs[1].is_empty());
}

#[test]
fn alloc_mono() {
    let bufs = alloc_samples(SampleFormat::S16, 1, 1024).unwrap();
    assert_eq!(bufs[0].len(), 1024 * 2);
}

// ── pixel formats ──

#[test]
fn yuv420p_descriptor() {
    let d = PixelFormat::Yuv420p.descriptor();
    assert_eq!(d.name, "yuv420p");
    assert_eq!(d.nb_components, 3);
    assert_eq!(d.bits_per_pixel, 12);
    assert_eq!(d.nb_planes, 3);
    assert_eq!(d.log2_chroma_w, 1);
    assert_eq!(d.log2_chroma_h, 1);
    assert!(d.is_planar);
    assert!(!d.has_alpha);
    assert!(!d.is_hwaccel);
    assert_eq!(d.bits_per_component, 8);
}

#[test]
fn rgba_descriptor() {
    let d = PixelFormat::Rgba.descriptor();
    assert_eq!(d.nb_components, 4);
    assert_eq!(d.bits_per_pixel, 32);
    assert!(!d.is_planar);
    assert!(d.has_alpha);
    assert_eq!(d.nb_planes, 1);
}

#[test]
fn nv12_semi_planar() {
    let d = PixelFormat::Nv12.descriptor();
    assert_eq!(d.nb_planes, 2);
    assert!(d.is_planar);
    assert_eq!(d.bits_per_pixel, 12);
}

#[test]
fn ten_bit_yuv() {
    let d = PixelFormat::Yuv420p10Le.descriptor();
    assert_eq!(d.bits_per_component, 10);
    assert_eq!(d.bits_per_pixel, 15);
}

#[test]
fn hw_formats_are_opaque() {
    for fmt in [PixelFormat::Vaapi, PixelFormat::D3d11, PixelFormat::VideoToolbox, PixelFormat::Cuda] {
        let d = fmt.descriptor();
        assert!(d.is_hwaccel);
        assert_eq!(d.nb_components, 0);
        assert_eq!(d.bits_per_pixel, 0);
    }
}

#[test]
fn gray8_single_component() {
    let d = PixelFormat::Gray8.descriptor();
    assert_eq!(d.nb_components, 1);
    assert_eq!(d.bits_per_pixel, 8);
}

#[test]
fn packed_yuv_not_planar() {
    assert!(!PixelFormat::Yuyv422.descriptor().is_planar);
    assert!(!PixelFormat::Uyvy422.descriptor().is_planar);
}

#[test]
fn pixfmt_display_format() {
    assert_eq!(PixelFormat::Yuv420p.to_string(), "yuv420p");
    assert_eq!(PixelFormat::Rgba.to_string(), "rgba");
}

#[test]
fn pixfmt_from_name_valid() {
    assert_eq!(PixelFormat::from_name("yuv420p"), Some(PixelFormat::Yuv420p));
    assert_eq!(PixelFormat::from_name("rgba"), Some(PixelFormat::Rgba));
    assert_eq!(PixelFormat::from_name("nv12"), Some(PixelFormat::Nv12));
}

#[test]
fn all_formats_have_unique_names() {
    let mut names: Vec<&str> = ALL_PIXEL_FORMATS.iter().map(|f| f.name()).collect();
    let len_before = names.len();
    names.sort();
    names.dedup();
    assert_eq!(names.len(), len_before, "duplicate pixel format names found");
}

#[test]
fn pixfmt_all_formats_roundtrip_name() {
    for fmt in ALL_PIXEL_FORMATS.iter() {
        let name = fmt.name();
        assert_eq!(PixelFormat::from_name(name), Some(*fmt), "roundtrip failed for {name}");
        assert_eq!(fmt.descriptor().name, name);
    }
}

#[test]
fn pixfmt_from_name_invalid() {
    assert_eq!(PixelFormat::from_name("not_a_format"), None);
    assert_eq!(PixelFormat::from_name(""), None);
}

#[test]
fn from_name_case_sensitive() {
    assert_eq!(PixelFormat::from_name("YUV420P"), None);
}

// ── image sizes ──

#[test]
fn linesize_yuv420p_luma() {
    assert_eq!(image_line_size(PixelFormat::Yuv420p, 1920, 0, 32).unwrap(), 1920);
}

#[test]
fn linesize_yuv420p_chroma() {
    assert_eq!(image_line_size(PixelFormat::Yuv420p, 1920, 1, 32).unwrap(), 960);
}

#[test]
fn linesize_rgb24() {
    assert_eq!(image_line_size(PixelFormat::Rgb24, 1920, 0, 32).unwrap(), 5760);
}

#[test]
fn linesize_rgba() {
    assert_eq!(image_line_size(PixelFormat::Rgba, 1920, 0, 32).unwrap(), 7680);
}

#[test]
fn linesize_alignment() {
    let ls = image_line_size(PixelFormat::Yuv420p, 1921, 0, 32).unwrap();
    assert_eq!(ls % 32, 0);
    assert!(ls >= 1921);
}

#[test]
fn linesize_10bit() {
    assert_eq!(image_line_size(PixelFormat::Yuv420p10Le, 1920, 0, 32).unwrap(), 3840);
}

#[test]
fn buffer_size_yuv420p() {
    let size = image_buffer_size(PixelFormat::Yuv420p, 1920, 1080, 1).unwrap();
    assert_eq!(size, 1920 * 1080 + 960 * 540 * 2);
}

#[test]
fn buffer_size_rgb24() {
    assert_eq!(image_buffer_size(PixelFormat::Rgb24, 100, 100, 1).unwrap(), 100 * 3 * 100);
}

#[test]
fn fill_black_yuv_luma() {
    let mut data = vec![255u8; 8];
    fill_plane_black(&mut data, 4, 2, 0, true);
    assert!(data.iter().all(|&b| b == 0));
}

#[test]
fn fill_black_yuv_chroma() {
    let mut data = vec![0u8; 4];
    fill_plane_black(&mut data, 2, 2, 1, true);
    assert!(data.iter().all(|&b| b == 128));
}

#[test]
fn fill_black_rgb() {
    let mut data = vec![255u8; 12];
    fill_plane_black(&mut data, 4, 3, 0, false);
    assert!(data.iter().all(|&b| b == 0));
}

#[test]
fn linesize_zero_width() {
    assert!(image_line_size(PixelFormat::Yuv420p, 0, 0, 32).is_err());
}

#[test]
fn linesize_hw_format() {
    assert!(image_line_size(PixelFormat::Vaapi, 1920, 0, 32).is_err());
}

#[test]
fn linesize_plane_out_of_range() {
    assert!(image_line_size(PixelFormat::Yuv420p, 1920, 5, 32).is_err());
}

#[test]
fn buffer_size_zero_dims() {
    assert!(image_buffer_size(PixelFormat::Yuv420p, 0, 1080, 1).is_err());
    assert!(image_buffer_size(PixelFormat::Yuv420p, 1920, 0, 1).is_err());
}

#[test]
fn buffer_size_hw_format() {
    assert!(image_buffer_size(PixelFormat::D3d11, 1920, 1080, 1).is_err());
}

#[test]
fn linesize_align_1() {
    assert_eq!(image_line_size(PixelFormat::Yuv420p, 1921, 0, 1).unwrap(), 1921);
}

#[test]
fn odd_dimensions_yuv420p() {
    assert_eq!(image_line_size(PixelFormat::Yuv420p, 1921, 1, 1).unwrap(), 961);
}

#[test]
fn gray8_single_plane() {
    assert_eq!(image_line_size(PixelFormat::Gray8, 100, 0, 1).unwrap(), 100);
    assert_eq!(image_buffer_size(PixelFormat::Gray8, 100, 100, 1).unwrap(), 10000);
}

// ── hashing ──

#[test]
fn crc32_empty() {
    assert_eq!(hash_hex(HashAlgorithm::Crc32, b""), "00000000");
}

#[test]
fn crc32_hello() {
    assert_eq!(hash_hex(HashAlgorithm::Crc32, b"Hello"), "f7d18982");
}

#[test]
fn crc32_check_value() {
    assert_eq!(hash_hex(HashAlgorithm::Crc32, b"123456789"), "cbf43926");
}

#[test]
fn crc32_bytes_are_big_endian() {
    assert_eq!(hash(HashAlgorithm::Crc32, b"123456789"), vec![0xcb, 0xf4, 0x39, 0x26]);
}

#[test]
fn streaming_matches_oneshot() {
    let data = b"Hello, World!";
    let oneshot = hash(HashAlgorithm::Crc32, data);
    let mut ctx = HashContext::new(HashAlgorithm::Crc32);
    ctx.update(b"Hello, ");
    ctx.update(b"World!");
    assert_eq!(ctx.finalize(), oneshot);
}

#[test]
fn reset_and_reuse() {
    let mut ctx = HashContext::new(HashAlgorithm::Crc32);
    ctx.update(b"first");
    ctx.reset();
    ctx.update(b"123456789");
    assert_eq!(ctx.finalize_hex(), "cbf43926");
}

#[test]
fn output_size() {
    assert_eq!(HashAlgorithm::Crc32.output_size(), 4);
}

#[test]
fn algorithm_name() {
    assert_eq!(HashAlgorithm::Crc32.name(), "crc32");
}

#[test]
fn from_name() {
    assert_eq!(HashAlgorithm::from_name("crc32"), Some(HashAlgorithm::Crc32));
}

#[test]
fn hash_from_name_invalid() {
    assert_eq!(HashAlgorithm::from_name("sha256"), None);
    assert_eq!(HashAlgorithm::from_name(""), None);
}

// ── log levels ──

#[test]
fn default_level_is_info() {
    assert_eq!(default_log_level(), LogLevel::Info);
}

#[test]
fn level_ordering() {
    assert!(LogLevel::Trace < LogLevel::Debug);
    assert!(LogLevel::Debug < LogLevel::Info);
    assert!(LogLevel::Info < LogLevel::Warning);
    assert!(LogLevel::Warning < LogLevel::Error);
    assert!(LogLevel::Error < LogLevel::Fatal);
    assert!(LogLevel::Fatal < LogLevel::Quiet);
}

#[test]
fn log_suppressed_below_level() {
    assert!(!passes_filter(LogLevel::Trace, LogLevel::Error));
    assert!(!passes_filter(LogLevel::Info, LogLevel::Error));
    assert!(!passes_filter(LogLevel::Warning, LogLevel::Error));
    assert!(passes_filter(LogLevel::Error, LogLevel::Error));
    assert!(passes_filter(LogLevel::Fatal, LogLevel::Error));
}

#[test]
fn level_u8_roundtrip() {
    for l in [LogLevel::Trace, LogLevel::Debug, LogLevel::Info, LogLevel::Warning, LogLevel::Error, LogLevel::Fatal, LogLevel::Quiet] {
        assert_eq!(LogLevel::from_u8(l.to_u8()), l);
    }
}

// ── continued fractions ──

#[test]
fn convergents_of_one_half() {
    // 0.5 = [0; 2]: convergents 0/1, then 1/2.
    let (p1, q1) = next_convergent(0, 0, 1, 1, 0, 100).unwrap();
    assert_eq!((p1, q1), (0, 1));
    let (p2, q2) = next_convergent(2, 1, 0, p1, q1, 100).unwrap();
    assert_eq!((p2, q2), (1, 2));
    assert!(next_convergent(200, p1, q1, p2, q2, 100).is_none());
    let r = rational_of_convergent(true, p2, q2).unwrap();
    assert_eq!((r.num, r.den), (-1, 2));
}

#[test]
fn convergent_saturates_and_overflow_is_refused() {
    assert_eq!(next_convergent(i64::MAX, 0, 0, 2, 0, 10), Some((i64::MAX, 0)));
    assert!(rational_of_convergent(false, 1 << 40, 1).is_err());
    assert!(rational_of_convergent(false, 1, 1 << 40).is_err());
}
