use justav::codec::codec::CodecId;
use justav::codec::codecs::adts::{parse_adts_header, split_adts_frames, AacProfile, SAMPLE_RATES};
use justav::codec::codecs::nal::{parse_sps_basic, split_annex_b, split_avcc, ExpGolombReader, NalType};
use justav::codec::codecs::opus::{frame_count, parse_toc, OpusBandwidth, OpusMode};

/// A minimal valid ADTS header (7 bytes, no CRC).
fn build_adts_header(profile: u8, sf_index: u8, channels: u8, payload_size: u16) -> Vec<u8> {
    let frame_length = payload_size + 7;
    let mut h = vec![0u8; 7];
    h[0] = 0xFF;
    h[1] = 0xF1;
    h[2] = (profile << 6) | (sf_index << 2) | ((channels >> 2) & 0x01);
    h[3] = ((channels & 0x03) << 6) | ((frame_length >> 11) as u8 & 0x03);
    h[4] = (frame_length >> 3) as u8;
    h[5] = ((frame_length & 0x07) as u8) << 5 | 0x1F;
    h[6] = 0xFC;
    h
}

/// A bit writer for building test bitstreams.
struct BitWriter {
    data: Vec<u8>,
    current: u8,
    bit_pos: u8,
}

impl BitWriter {
    fn new() -> Self {
        Self { data: Vec::new(), current: 0, bit_pos: 0 }
    }

    fn push_bit(&mut self, b: u8) {
        self.current |= (b & 1) << (7 - self.bit_pos);
        self.bit_pos += 1;
        if self.bit_pos >= 8 {
            self.data.push(self.current);
            self.current = 0;
            self.bit_pos = 0;
        }
    }

    fn push_byte(&mut self, b: u8) {
        assert_eq!(self.bit_pos, 0, "push_byte requires byte alignment");
        self.data.push(b);
    }

    fn push_ue(&mut self, val: u32) {
        let code = val + 1;
        let bits = 32 - code.leading_zeros();
        for _ in 0..bits - 1 {
            self.push_bit(0);
        }
        for i in (0..bits).rev() {
            self.push_bit(((code >> i) & 1) as u8);
        }
    }

    fn finish(mut self) -> Vec<u8> {
        if self.bit_pos > 0 {
            self.data.push(self.current);
        }
        self.data
    }
}

/// A minimal SPS bitstream.
fn build_test_sps(
    profile_idc: u8,
    level_idc: u8,
    pic_width_in_mbs_minus1: u32,
    pic_height_in_map_units_minus1: u32,
    frame_mbs_only: bool,
) -> Vec<u8> {
    let mut bits = BitWriter::new();
    bits.push_byte(0x67);
    bits.push_byte(profile_idc);
    bits.push_byte(0x00);
    bits.push_byte(level_idc);
    bits.push_ue(0);
    bits.push_ue(0);
    bits.push_ue(0);
    bits.push_ue(0);
    bits.push_ue(1);
    bits.push_bit(0);
    bits.push_ue(pic_width_in_mbs_minus1);
    bits.push_ue(pic_height_in_map_units_minus1);
    bits.push_bit(if frame_mbs_only { 1 } else { 0 });
    bits.finish()
}

// ── ADTS ──

#[test]
fn parse_adts_aac_lc_44100_stereo() {
    let header_bytes = build_adts_header(1, 4, 2, 100);
    let h = parse_adts_header(&header_bytes).unwrap();
    assert_eq!(h.profile, AacProfile::Lc);
    assert_eq!(h.sample_rate, 44100);
    assert_eq!(h.channels, 2);
    assert_eq!(h.frame_length, 107);
    assert_eq!(h.payload_size(), 100);
    assert!(!h.has_crc);
    assert_eq!(h.header_size, 7);
}

#[test]
fn parse_adts_48000_mono() {
    let header_bytes = build_adts_header(1, 3, 1, 50);
    let h = parse_adts_header(&header_bytes).unwrap();
    assert_eq!(h.sample_rate, 48000);
    assert_eq!(h.channels, 1);
}

#[test]
fn parse_adts_all_profiles() {
    for (idx, expected) in [(0, AacProfile::Main), (1, AacProfile::Lc), (2, AacProfile::Ssr), (3, AacProfile::Ltp)] {
        let h = build_adts_header(idx, 4, 2, 10);
        let parsed = parse_adts_header(&h).unwrap();
        assert_eq!(parsed.profile, expected);
    }
}

#[test]
fn split_adts_two_frames() {
    let mut data = build_adts_header(1, 4, 2, 5);
    data.extend_from_slice(&[0xAA; 5]);
    let mut frame2 = build_adts_header(1, 4, 2, 3);
    frame2.extend_from_slice(&[0xBB; 3]);
    data.extend_from_slice(&frame2);

    let frames = split_adts_frames(&data).unwrap();
    assert_eq!(frames.len(), 2);
    assert_eq!(frames[0].1, vec![0xAA; 5]);
    assert_eq!(frames[1].1, vec![0xBB; 3]);
}

#[test]
fn split_adts_skips_garbage_before_sync() {
    let mut data = vec![0x00, 0x12];
    data.extend_from_slice(&build_adts_header(1, 4, 2, 2));
    data.extend_from_slice(&[0xCC; 2]);
    let frames = split_adts_frames(&data).unwrap();
    assert_eq!(frames.len(), 1);
    assert_eq!(frames[0].1, vec![0xCC; 2]);
}

#[test]
fn all_sample_rates() {
    for (idx, &expected) in SAMPLE_RATES.iter().enumerate() {
        let h = build_adts_header(1, idx as u8, 2, 10);
        let parsed = parse_adts_header(&h).unwrap();
        assert_eq!(parsed.sample_rate, expected);
    }
}

#[test]
fn profile_names() {
    assert_eq!(AacProfile::Lc.name(), "AAC-LC");
    assert_eq!(AacProfile::Main.name(), "AAC Main");
}

#[test]
fn adts_to_codec_parameters() {
    let h = parse_adts_header(&build_adts_header(1, 3, 2, 10)).unwrap();
    let par = h.to_codec_parameters().unwrap();
    assert_eq!(par.codec_id, CodecId::Aac);
    assert_eq!(par.sample_rate, 48000);
    assert_eq!(par.channels, 2);
}

#[test]
fn parse_adts_too_short() {
    assert!(parse_adts_header(&[0xFF, 0xF1, 0x00]).is_err());
}

#[test]
fn parse_adts_bad_sync() {
    let mut h = build_adts_header(1, 4, 2, 10);
    h[0] = 0x00;
    assert!(parse_adts_header(&h).is_err());
}

#[test]
fn parse_adts_invalid_sf_index() {
    let mut h = build_adts_header(1, 4, 2, 10);
    h[2] = (h[2] & 0xC3) | (0x0F << 2);
    assert!(parse_adts_header(&h).is_err());
}

#[test]
fn split_adts_truncated_frame() {
    let mut data = build_adts_header(1, 4, 2, 100);
    data.extend_from_slice(&[0x00; 10]);
    let frames = split_adts_frames(&data).unwrap();
    assert!(frames.is_empty());
}

#[test]
fn split_adts_empty() {
    let frames = split_adts_frames(&[]).unwrap();
    assert!(frames.is_empty());
}

// ── H.264 NAL units ──

#[test]
fn split_annex_b_basic() {
    let data = [
        0x00, 0x00, 0x00, 0x01, 0x67, 0x42, 0x00, 0x1E,
        0x00, 0x00, 0x00, 0x01, 0x68, 0x01, 0x02,
    ];
    let nals = split_annex_b(&data);
    assert_eq!(nals.len(), 2);
    assert_eq!(nals[0].nal_type, NalType::Sps);
    assert_eq!(nals[1].nal_type, NalType::Pps);
}

#[test]
fn split_annex_b_payloads() {
    let data = [0x00, 0x00, 0x01, 0x67, 0x42, 0x00, 0x00, 0x01, 0x68, 0x01];
    let nals = split_annex_b(&data);
    assert_eq!(nals.len(), 2);
    assert_eq!(nals[0].data, vec![0x67, 0x42]);
    assert_eq!(nals[0].nal_ref_idc, 3);
    assert_eq!(nals[1].data, vec![0x68, 0x01]);
}

#[test]
fn split_annex_b_3byte_start_code() {
    let data = [0x00, 0x00, 0x01, 0x67, 0x42, 0x00, 0x00, 0x01, 0x65, 0xAA];
    let nals = split_annex_b(&data);
    assert_eq!(nals.len(), 2);
    assert_eq!(nals[0].nal_type, NalType::Sps);
    assert_eq!(nals[1].nal_type, NalType::SliceIdr);
}

#[test]
fn split_annex_b_single_nal() {
    let data = [0x00, 0x00, 0x00, 0x01, 0x06, 0x01, 0x02];
    let nals = split_annex_b(&data);
    assert_eq!(nals.len(), 1);
    assert_eq!(nals[0].nal_type, NalType::Sei);
}

#[test]
fn split_annex_b_empty() {
    let nals = split_annex_b(&[]);
    assert!(nals.is_empty());
}

#[test]
fn split_annex_b_no_start_code() {
    let nals = split_annex_b(&[0x67, 0x42, 0x00]);
    assert!(nals.is_empty());
}

#[test]
fn split_avcc_basic() {
    let data = [
        0x00, 0x00, 0x00, 0x03, 0x67, 0x42, 0x00,
        0x00, 0x00, 0x00, 0x02, 0x68, 0x01,
    ];
    let nals = split_avcc(&data, 4).unwrap();
    assert_eq!(nals.len(), 2);
    assert_eq!(nals[0].nal_type, NalType::Sps);
    assert_eq!(nals[0].data.len(), 3);
    assert_eq!(nals[1].nal_type, NalType::Pps);
}

#[test]
fn split_avcc_2byte_length() {
    let data = [0x00, 0x02, 0x65, 0xAA];
    let nals = split_avcc(&data, 2).unwrap();
    assert_eq!(nals.len(), 1);
    assert_eq!(nals[0].nal_type, NalType::SliceIdr);
}

#[test]
fn split_avcc_truncated() {
    let data = [0x00, 0x00, 0x00, 0xFF, 0x67];
    assert!(split_avcc(&data, 4).is_err());
}

#[test]
fn split_avcc_invalid_length_size() {
    assert!(split_avcc(&[], 0).is_err());
    assert!(split_avcc(&[], 5).is_err());
}

#[test]
fn split_avcc_empty() {
    let nals = split_avcc(&[], 4).unwrap();
    assert!(nals.is_empty());
}

#[test]
fn nal_type_from_byte() {
    assert_eq!(NalType::from_byte(0x67), NalType::Sps);
    assert_eq!(NalType::from_byte(0x68), NalType::Pps);
    assert_eq!(NalType::from_byte(0x65), NalType::SliceIdr);
    assert_eq!(NalType::from_byte(0x41), NalType::Slice);
    assert_eq!(NalType::from_byte(0x09), NalType::Aud);
}

#[test]
fn nal_type_vcl() {
    assert!(NalType::SliceIdr.is_vcl());
    assert!(NalType::Slice.is_vcl());
    assert!(!NalType::Sps.is_vcl());
    assert!(!NalType::Pps.is_vcl());
    assert!(!NalType::Sei.is_vcl());
}

#[test]
fn nal_type_idr() {
    assert!(NalType::SliceIdr.is_idr());
    assert!(!NalType::Slice.is_idr());
}

#[test]
fn parse_sps_baseline_720p() {
    let sps_data = build_test_sps(66, 31, 79, 44, true);
    let info = parse_sps_basic(&sps_data).unwrap();
    assert_eq!(info.profile_idc, 66);
    assert_eq!(info.level_idc, 31);
    assert_eq!(info.width, 1280);
    assert_eq!(info.height, 720);
}

#[test]
fn parse_sps_baseline_1080p() {
    let sps_data = build_test_sps(66, 40, 119, 67, true);
    let info = parse_sps_basic(&sps_data).unwrap();
    assert_eq!(info.width, 1920);
    assert_eq!(info.height, 1088);
}

#[test]
fn parse_sps_field_coded_doubles_height() {
    let sps_data = build_test_sps(66, 31, 79, 44, false);
    let info = parse_sps_basic(&sps_data).unwrap();
    assert_eq!(info.width, 1280);
    assert_eq!(info.height, 1440);
}

#[test]
fn parse_sps_too_short() {
    assert!(parse_sps_basic(&[0x67, 0x42]).is_err());
}

#[test]
fn exp_golomb_ue() {
    let data = [0b1_010_011_0, 0b0100_0000];
    let mut r = ExpGolombReader::new(&data);
    assert_eq!(r.read_ue().unwrap(), 0);
    assert_eq!(r.read_ue().unwrap(), 1);
    assert_eq!(r.read_ue().unwrap(), 2);
    assert_eq!(r.read_ue().unwrap(), 3);
}

#[test]
fn exp_golomb_se() {
    let data = [0b1_010_011_0, 0b0100_0010, 0b1_0000000];
    let mut r = ExpGolombReader::new(&data);
    assert_eq!(r.read_se().unwrap(), 0);
    assert_eq!(r.read_se().unwrap(), 1);
    assert_eq!(r.read_se().unwrap(), -1);
    assert_eq!(r.read_se().unwrap(), 2);
    assert_eq!(r.read_se().unwrap(), -2);
}

#[test]
fn exp_golomb_read_bits_past_end() {
    let data = [0xA5];
    let mut r = ExpGolombReader::new(&data);
    assert_eq!(r.read_bits(4).unwrap(), 0xA);
    assert_eq!(r.read_bits(4).unwrap(), 0x5);
    assert!(r.read_bit().is_err());
}

// ── Opus ──

#[test]
fn parse_toc_silk_narrowband_20ms_mono() {
    let data = [0x08, 0xAA, 0xBB];
    let toc = parse_toc(&data).unwrap();
    assert_eq!(toc.mode, OpusMode::Silk);
    assert_eq!(toc.bandwidth, OpusBandwidth::Narrowband);
    assert_eq!(toc.frame_duration.samples_48k, 960);
    let ms = toc.frame_duration.samples_48k as f64 / 48.0;
    assert!((ms - 20.0).abs() < 0.1);
    assert!(!toc.stereo);
    assert_eq!(toc.frame_count_code, 0);
    assert_eq!(toc.config, 1);
}

#[test]
fn parse_toc_celt_fullband_20ms_stereo() {
    let data = [0xFC];
    let toc = parse_toc(&data).unwrap();
    assert_eq!(toc.mode, OpusMode::Celt);
    assert_eq!(toc.bandwidth, OpusBandwidth::Fullband);
    assert_eq!(toc.frame_duration.samples_48k, 960);
    assert!(toc.stereo);
    assert_eq!(toc.config, 31);
}

#[test]
fn parse_toc_hybrid_swb_10ms() {
    let data = [0x61];
    let toc = parse_toc(&data).unwrap();
    assert_eq!(toc.mode, OpusMode::Hybrid);
    assert_eq!(toc.bandwidth, OpusBandwidth::SuperWideband);
    assert_eq!(toc.frame_duration.samples_48k, 480);
    assert_eq!(toc.frame_count_code, 1);
}

#[test]
fn frame_count_code_0() {
    assert_eq!(frame_count(&[0x08]).unwrap(), 1);
}

#[test]
fn frame_count_code_1() {
    assert_eq!(frame_count(&[0x09]).unwrap(), 2);
}

#[test]
fn frame_count_code_2() {
    assert_eq!(frame_count(&[0x0A]).unwrap(), 2);
}

#[test]
fn frame_count_code_3() {
    assert_eq!(frame_count(&[0x0B, 0x05]).unwrap(), 5);
}

#[test]
fn all_configs_valid() {
    for config in 0..32u8 {
        let toc_byte = config << 3;
        let toc = parse_toc(&[toc_byte]).unwrap();
        assert_eq!(toc.config, config);
        assert!(toc.frame_duration.samples_48k > 0);
    }
}

#[test]
fn bandwidth_sample_rates() {
    assert_eq!(OpusBandwidth::Narrowband.sample_rate(), 8000);
    assert_eq!(OpusBandwidth::Fullband.sample_rate(), 48000);
}

#[test]
fn opus_to_codec_parameters_is_48k() {
    let toc = parse_toc(&[0xFC]).unwrap();
    let par = toc.to_codec_parameters().unwrap();
    assert_eq!(par.codec_id, CodecId::Opus);
    assert_eq!(par.sample_rate, 48000);
    assert_eq!(par.channels, 2);
}

#[test]
fn parse_toc_empty() {
    assert!(parse_toc(&[]).is_err());
}

#[test]
fn frame_count_empty() {
    assert!(frame_count(&[]).is_err());
}

#[test]
fn frame_count_code3_too_short() {
    assert!(frame_count(&[0x0B]).is_err());
}

#[test]
fn frame_count_code3_zero_frames() {
    assert!(frame_count(&[0x0B, 0x00]).is_err());
}

#[test]
fn parse_sps_largest_width_fits() {
    // (2^28 - 1) macroblocks of 16 pixels: 2^32 - 16 pixels still fit.
    let sps_data = build_test_sps(66, 31, (1 << 28) - 2, 44, true);
    let info = parse_sps_basic(&sps_data).unwrap();
    assert_eq!(info.width, 4_294_967_280);
    assert_eq!(info.height, 720);
}

#[test]
fn parse_sps_width_past_32_bits_is_invalid_data() {
    // 2^28 + 1 macroblocks of 16 pixels do not fit in 32 bits.
    let sps_data = build_test_sps(66, 31, 1 << 28, 44, true);
    assert!(matches!(parse_sps_basic(&sps_data), Err(justav::util::error::Error::InvalidData(_))));
}

#[test]
fn parse_sps_height_past_32_bits_is_invalid_data() {
    // Field coding doubles 2^27 map units of 16 rows: 2^32 rows.
    let sps_data = build_test_sps(66, 31, 79, (1 << 27) - 1, false);
    assert!(matches!(parse_sps_basic(&sps_data), Err(justav::util::error::Error::InvalidData(_))));
}

#[test]
fn parse_adts_frame_of_256_bytes() {
    // frame_length 256: its low byte is 0, but the frame holds the header.
    let h = parse_adts_header(&[0xFF, 0xF1, 0x50, 0x80, 0x20, 0x1F, 0xFC]).unwrap();
    assert_eq!(h.frame_length, 256);
    assert_eq!(h.header_size, 7);
    assert_eq!(h.payload_size(), 249);
}
