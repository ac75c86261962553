use justav::codec::bsf::{BitstreamFilter, BsfChain, NullBsf};
use justav::codec::codec::{
    CodecId, CodecRegistry, Decoder, DecoderBox, DecoderFactory, ALL_CODEC_IDS,
};
use justav::codec::codec_par::CodecParameters;
use justav::codec::context::CodecContext;
use justav::codec::error_resilience::ErrorPolicy;
use justav::codec::packet::{Packet, PacketSideDataType};
use justav::codec::parser::Parser;
use justav::util::buffer::Buffer;
use justav::util::channel_layout::ChannelLayout;
use justav::util::error::{Error, Result};
use justav::util::frame::{Frame, MediaType};
use justav::util::rational::Rational;

/// A decoder that accepts everything and never yields a frame.
struct DummyDecoder;

impl Decoder for DummyDecoder {
    fn codec_id(&self) -> CodecId {
        CodecId::PcmU8
    }
    fn open(&mut self, _: &CodecParameters) -> Result<()> {
        Ok(())
    }
    fn send_packet(&mut self, _: &Packet) -> Result<()> {
        Ok(())
    }
    fn receive_frame(&mut self, _: &mut Frame) -> Result<()> {
        Err(Error::Again)
    }
    fn flush(&mut self) {}
}

struct DummyFactory;

impl DecoderFactory for DummyFactory {
    fn create(&self) -> DecoderBox {
        DecoderBox { decoder: Box::new(DummyDecoder) }
    }
}

fn tb_ms() -> Rational {
    Rational::new(1, 1000)
}

fn tb_us() -> Rational {
    Rational::new(1, 1_000_000)
}

// ── bsf ──

#[test]
fn null_bsf_passthrough() {
    let mut bsf = NullBsf::new();
    let params = CodecParameters::new();
    bsf.init(&params).unwrap();

    let pkt = Packet::new(Buffer::from_vec(vec![1, 2, 3]));
    bsf.send_packet(&pkt).unwrap();

    let mut out = Packet::empty();
    bsf.receive_packet(&mut out).unwrap();
    assert_eq!(out.data.data(), &[1, 2, 3]);
}

#[test]
fn chain_empty_is_passthrough() {
    let mut chain = BsfChain::new();
    assert!(chain.is_empty());
    let pkt = Packet::new(Buffer::from_vec(vec![1]));
    chain.send_packet(&pkt).unwrap();
}

#[test]
fn chain_with_null_bsf() {
    let mut chain = BsfChain::new();
    chain.push(Box::new(NullBsf::new()));
    assert_eq!(chain.len(), 1);
}

#[test]
fn null_bsf_send_twice_without_receive() {
    let mut bsf = NullBsf::new();
    let pkt = Packet::new(Buffer::from_vec(vec![1]));
    bsf.send_packet(&pkt).unwrap();
    assert!(bsf.send_packet(&pkt).is_err());
}

#[test]
fn null_bsf_receive_without_send() {
    let mut bsf = NullBsf::new();
    let mut out = Packet::empty();
    assert!(bsf.receive_packet(&mut out).is_err());
}

#[test]
fn null_bsf_flush_drops_pending() {
    let mut bsf = NullBsf::new();
    bsf.send_packet(&Packet::new(Buffer::from_vec(vec![9]))).unwrap();
    bsf.flush();
    let mut out = Packet::empty();
    assert_eq!(bsf.receive_packet(&mut out), Err(Error::Again));
}

// ── codec ids and registry ──

#[test]
fn codec_id_name() {
    assert_eq!(CodecId::H264.name(), "h264");
    assert_eq!(CodecId::PcmS16Le.name(), "pcm_s16le");
    assert_eq!(CodecId::Aac.name(), "aac");
}

#[test]
fn codec_id_from_name() {
    assert_eq!(CodecId::from_name("h264"), Some(CodecId::H264));
    assert_eq!(CodecId::from_name("flac"), Some(CodecId::Flac));
}

#[test]
fn codec_id_media_type() {
    assert_eq!(CodecId::H264.media_type(), MediaType::Video);
    assert_eq!(CodecId::Aac.media_type(), MediaType::Audio);
}

#[test]
fn codec_id_display() {
    assert_eq!(CodecId::Opus.to_string(), "opus");
}

#[test]
fn all_codec_ids_unique_names() {
    let mut names: Vec<&str> = ALL_CODEC_IDS.iter().map(|c| c.name()).collect();
    let len = names.len();
    names.sort();
    names.dedup();
    assert_eq!(names.len(), len);
}

#[test]
fn all_codec_ids_roundtrip_name() {
    for id in ALL_CODEC_IDS.iter() {
        assert_eq!(CodecId::from_name(id.name()), Some(*id));
    }
}

#[test]
fn registry_empty() {
    let reg = CodecRegistry::new();
    assert!(reg.find_decoder(CodecId::H264).is_none());
    assert!(reg.find_encoder(CodecId::H264).is_none());
    assert!(reg.decoder_ids().is_empty());
}

#[test]
fn registry_no_duplicate() {
    let mut reg = CodecRegistry::new();
    reg.register_decoder(CodecId::PcmS16Le, Box::new(DummyFactory));
    reg.register_decoder(CodecId::PcmS16Le, Box::new(DummyFactory));
    assert_eq!(reg.decoder_ids().len(), 1);
}

#[test]
fn registry_keeps_registration_order() {
    let mut reg = CodecRegistry::new();
    reg.register_decoder(CodecId::PcmU8, Box::new(DummyFactory));
    reg.register_decoder(CodecId::PcmS16Le, Box::new(DummyFactory));
    reg.register_decoder(CodecId::PcmU8, Box::new(DummyFactory));
    assert_eq!(reg.decoder_ids(), vec![CodecId::PcmU8, CodecId::PcmS16Le]);
    assert!(reg.find_decoder(CodecId::PcmS16Le).is_some());
}

#[test]
fn codec_id_from_name_invalid() {
    assert_eq!(CodecId::from_name("not_a_codec"), None);
    assert_eq!(CodecId::from_name(""), None);
}

#[test]
fn registry_find_unregistered() {
    let reg = CodecRegistry::new();
    assert!(reg.find_decoder(CodecId::Aac).is_none());
}

// ── codec parameters ──

#[test]
fn new_default() {
    let par = CodecParameters::new();
    assert_eq!(par.codec_id, CodecId::NoCodec);
    assert_eq!(par.bit_rate, 0);
}

#[test]
fn new_video() {
    let par = CodecParameters::new_video(CodecId::H264, 1920, 1080).unwrap();
    assert_eq!(par.media_type, MediaType::Video);
    assert_eq!(par.codec_id, CodecId::H264);
    assert_eq!(par.width, 1920);
    assert_eq!(par.height, 1080);
}

#[test]
fn new_audio() {
    let par = CodecParameters::new_audio(CodecId::Aac, 48000, 2).unwrap();
    assert_eq!(par.media_type, MediaType::Audio);
    assert_eq!(par.sample_rate, 48000);
    assert_eq!(par.channels, 2);
}

#[test]
fn copy_from() {
    let src = CodecParameters::new_video(CodecId::H264, 1280, 720).unwrap();
    let mut dst = CodecParameters::new();
    dst.copy_from(&src);
    assert_eq!(dst.codec_id, CodecId::H264);
    assert_eq!(dst.width, 1280);
}

#[test]
fn extradata() {
    let mut par = CodecParameters::new_video(CodecId::H264, 1920, 1080).unwrap();
    par.extradata = Some(Buffer::from_vec(vec![0, 0, 0, 1, 0x67]));
    assert_eq!(par.extradata.as_ref().unwrap().len(), 5);
}

#[test]
fn nb_channels_from_layout() {
    let mut par = CodecParameters::new_audio(CodecId::Aac, 48000, 2).unwrap();
    par.channel_layout = Some(ChannelLayout::layout_5point1());
    assert_eq!(par.nb_channels(), 6);
}

#[test]
fn nb_channels_fallback() {
    let par = CodecParameters::new_audio(CodecId::Aac, 48000, 2).unwrap();
    assert_eq!(par.nb_channels(), 2);
}

#[test]
fn codec_par_clone_is_independent() {
    let par = CodecParameters::new_video(CodecId::Hevc, 3840, 2160).unwrap();
    let par2 = par.duplicate();
    assert_eq!(par2.codec_id, CodecId::Hevc);
    assert_eq!(par2.width, 3840);
}

#[test]
fn codec_par_new_video_zero_width() {
    assert!(CodecParameters::new_video(CodecId::H264, 0, 1080).is_err());
}

#[test]
fn codec_par_new_video_zero_height() {
    assert!(CodecParameters::new_video(CodecId::H264, 1920, 0).is_err());
}

#[test]
fn codec_par_new_audio_zero_sample_rate() {
    assert!(CodecParameters::new_audio(CodecId::Aac, 0, 2).is_err());
}

#[test]
fn codec_par_new_audio_zero_channels() {
    assert!(CodecParameters::new_audio(CodecId::Aac, 48000, 0).is_err());
}

// ── packet ──

#[test]
fn new_packet() {
    let pkt = Packet::new(Buffer::from_vec(vec![0xAA; 100]));
    assert_eq!(pkt.size(), 100);
    assert!(!pkt.is_empty());
    assert!(!pkt.is_keyframe());
    assert_eq!(pkt.pos, -1);
}

#[test]
fn empty_packet() {
    let pkt = Packet::empty();
    assert!(pkt.is_empty());
    assert_eq!(pkt.size(), 0);
}

#[test]
fn clone_packet() {
    let mut pkt = Packet::new(Buffer::from_vec(vec![1, 2, 3]));
    pkt.pts = Some(100);
    pkt.stream_index = 1;
    let pkt2 = pkt.duplicate();
    assert_eq!(pkt2.pts, Some(100));
    assert_eq!(pkt2.data.data(), &[1, 2, 3]);
    assert_eq!(pkt2.stream_index, 1);
}

#[test]
fn keyframe_flag() {
    let mut pkt = Packet::empty();
    pkt.flags.keyframe = true;
    assert!(pkt.is_keyframe());
}

#[test]
fn rescale_ts_ms_to_us() {
    let mut pkt = Packet::new(Buffer::from_vec(vec![0]));
    pkt.pts = Some(500);
    pkt.dts = Some(490);
    pkt.duration = Some(33);
    pkt.time_base = tb_ms();

    pkt.rescale_ts(tb_us()).unwrap();
    assert_eq!(pkt.pts, Some(500_000));
    assert_eq!(pkt.dts, Some(490_000));
    assert_eq!(pkt.duration, Some(33_000));
    assert_eq!(pkt.time_base, tb_us());
}

#[test]
fn rescale_ts_none_fields_stay_none() {
    let mut pkt = Packet::new(Buffer::from_vec(vec![0]));
    pkt.time_base = tb_ms();
    pkt.rescale_ts(tb_us()).unwrap();
    assert_eq!(pkt.pts, None);
    assert_eq!(pkt.dts, None);
    assert_eq!(pkt.duration, None);
}

#[test]
fn side_data_crud() {
    let mut pkt = Packet::empty();
    pkt.add_side_data(PacketSideDataType::Palette, Buffer::from_vec(vec![1, 2]));
    assert_eq!(pkt.side_data_count(), 1);

    let sd = pkt.get_side_data(PacketSideDataType::Palette).unwrap();
    assert_eq!(sd.data.data(), &[1, 2]);

    pkt.add_side_data(PacketSideDataType::Palette, Buffer::from_vec(vec![3]));
    assert_eq!(pkt.side_data_count(), 1);
    assert_eq!(pkt.get_side_data(PacketSideDataType::Palette).unwrap().data.data(), &[3]);

    assert!(pkt.remove_side_data(PacketSideDataType::Palette));
    assert_eq!(pkt.side_data_count(), 0);
}

#[test]
fn packet_reset_clears_all() {
    let mut pkt = Packet::new(Buffer::from_vec(vec![1; 100]));
    pkt.pts = Some(42);
    pkt.flags.keyframe = true;
    pkt.add_side_data(PacketSideDataType::Palette, Buffer::from_vec(vec![0]));

    pkt.reset();
    assert!(pkt.is_empty());
    assert_eq!(pkt.pts, None);
    assert!(!pkt.is_keyframe());
    assert_eq!(pkt.side_data_count(), 0);
}

#[test]
fn send_across_threads() {
    fn assert_send<T: Send>() {}
    assert_send::<Packet>();
    let pkt = Packet::new(Buffer::from_vec(vec![42]));
    assert_eq!(pkt.data.data(), &[42]);
}

#[test]
fn rescale_ts_invalid_src_tb() {
    let mut pkt = Packet::new(Buffer::from_vec(vec![0]));
    pkt.pts = Some(100);
    assert!(pkt.rescale_ts(tb_ms()).is_err());
}

#[test]
fn rescale_ts_invalid_dst_tb() {
    let mut pkt = Packet::new(Buffer::from_vec(vec![0]));
    pkt.pts = Some(100);
    pkt.time_base = tb_ms();
    assert!(pkt.rescale_ts(Rational::unknown()).is_err());
}

#[test]
fn packet_get_nonexistent_side_data() {
    let pkt = Packet::empty();
    assert!(pkt.get_side_data(PacketSideDataType::Palette).is_none());
}

#[test]
fn packet_remove_nonexistent_side_data() {
    let mut pkt = Packet::empty();
    assert!(!pkt.remove_side_data(PacketSideDataType::Palette));
}

#[test]
fn zero_size_data() {
    let pkt = Packet::new(Buffer::from_vec(vec![]));
    assert!(pkt.is_empty());
    assert_eq!(pkt.size(), 0);
}

// ── parser, error policy ──

#[test]
fn parser_trait_is_object_safe() {
    fn accepts_parser(_p: &dyn Parser) {}
    let _ = accepts_parser;
}

#[test]
fn default_is_fail() {
    assert_eq!(ErrorPolicy::default(), ErrorPolicy::Fail);
}

#[test]
fn all_variants_debug() {
    for v in [ErrorPolicy::Fail, ErrorPolicy::Skip, ErrorPolicy::Conceal] {
        assert!(!format!("{v:?}").is_empty());
    }
}

// ── codec context ──

#[test]
fn decoder_not_found() {
    let reg = CodecRegistry::new();
    assert!(CodecContext::new_decoder(&reg, CodecId::H264).is_err());
}

#[test]
fn encoder_not_found() {
    let reg = CodecRegistry::new();
    assert!(CodecContext::new_encoder(&reg, CodecId::H264).is_err());
}

#[test]
fn send_before_open() {
    let mut reg = CodecRegistry::new();
    reg.register_decoder(CodecId::PcmU8, Box::new(DummyFactory));
    let mut ctx = CodecContext::new_decoder(&reg, CodecId::PcmU8).unwrap();
    let pkt = Packet::empty();
    assert!(ctx.send_packet(&pkt).is_err());
}

#[test]
fn double_open() {
    let mut reg = CodecRegistry::new();
    reg.register_decoder(CodecId::PcmU8, Box::new(DummyFactory));
    let mut ctx = CodecContext::new_decoder(&reg, CodecId::PcmU8).unwrap();
    let params = CodecParameters::new_audio(CodecId::PcmU8, 44100, 1).unwrap();
    ctx.open(&params).unwrap();
    assert!(ctx.open(&params).is_err());
}

#[test]
fn send_frame_on_decoder() {
    let mut reg = CodecRegistry::new();
    reg.register_decoder(CodecId::PcmU8, Box::new(DummyFactory));
    let mut ctx = CodecContext::new_decoder(&reg, CodecId::PcmU8).unwrap();
    let params = CodecParameters::new_audio(CodecId::PcmU8, 44100, 1).unwrap();
    ctx.open(&params).unwrap();
    assert!(ctx.send_frame(None).is_err());
}

#[test]
fn codec_par_send_trait() {
    fn assert_send<T: Send>() {}
    assert_send::<CodecParameters>();
}

#[test]
fn context_send_trait() {
    fn assert_send<T: Send>() {}
    assert_send::<CodecContext>();
}

#[test]
fn side_data_add_keeps_other_types() {
    let mut pkt = Packet::empty();
    pkt.add_side_data(PacketSideDataType::Palette, Buffer::from_vec(vec![1]));
    pkt.add_side_data(PacketSideDataType::SkipSamples, Buffer::from_vec(vec![2]));
    pkt.add_side_data(PacketSideDataType::Palette, Buffer::from_vec(vec![3]));
    assert_eq!(pkt.side_data_count(), 2);
    assert_eq!(pkt.get_side_data(PacketSideDataType::Palette).unwrap().data.data(), &[3]);
    assert_eq!(pkt.get_side_data(PacketSideDataType::SkipSamples).unwrap().data.data(), &[2]);
    assert!(pkt.remove_side_data(PacketSideDataType::Palette));
    assert_eq!(pkt.side_data_count(), 1);
    assert!(pkt.get_side_data(PacketSideDataType::Palette).is_none());
}
