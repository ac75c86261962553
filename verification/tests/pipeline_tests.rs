use justav::codec::codec::CodecId;
use justav::codec::codec_par::CodecParameters;
use justav::codec::packet::Packet;
use justav::format::context::{InputContext, OutputContext};
use justav::format::io::IOContext;
use justav::format::stream::Stream;
use justav::format::wav::{WavDemuxer, WavMuxer};
use justav::pipeline::{next_step, Outcome, Pipeline, Step, TranscodeResult};
use justav::util::buffer::Buffer;
use justav::util::error::Result;

/// A WAV file in memory with PCM s16le data.
fn build_wav(sample_rate: u32, channels: u16, samples: &[u8]) -> Vec<u8> {
    let params = CodecParameters::new_audio(CodecId::PcmS16Le, sample_rate, channels).unwrap();
    let stream = Stream::new(0, params);
    let mut out = OutputContext::new(IOContext::memory_writer(), Box::new(WavMuxer::new()));
    out.add_stream(stream);
    out.write_header().unwrap();
    out.write_packet(&Packet::new(Buffer::from_vec(samples.to_vec()))).unwrap();
    out.write_trailer().unwrap();
    out.into_io().into_vec().unwrap()
}

/// Run a whole transcode, step after step.
fn transcode(
    pipeline: &Pipeline,
    input: &mut InputContext,
    output: &mut OutputContext,
    output_codecs: &[CodecId],
) -> Result<TranscodeResult> {
    let mut t = pipeline.start(input, output, output_codecs)?;
    let n = t.pair_count();
    let mut step = Step::ReadPacket;
    loop {
        match step {
            Step::Finished => return Ok(t.result()),
            Step::Failed => return Err(t.take_error()),
            _ => {}
        }
        let outcome = t.perform(step, input, output);
        step = next_step(step, outcome, n);
    }
}

#[test]
fn e2e_wav_pcm_roundtrip() {
    let pipeline = Pipeline::with_defaults();
    let pcm_data: Vec<u8> = (0..400).map(|i| (i % 256) as u8).collect();
    let wav_in = build_wav(44100, 2, &pcm_data);
    let mut input = InputContext::new(IOContext::from_memory(wav_in), Box::new(WavDemuxer::new()));
    let mut output = OutputContext::new(IOContext::memory_writer(), Box::new(WavMuxer::new()));

    let result = transcode(&pipeline, &mut input, &mut output, &[CodecId::PcmS16Le]).unwrap();
    assert!(result.packets_read > 0);
    assert!(result.packets_written > 0);

    let wav_out = output.into_io().into_vec().unwrap();
    assert!(wav_out.len() > 44);

    let mut verify = InputContext::new(IOContext::from_memory(wav_out), Box::new(WavDemuxer::new()));
    verify.open().unwrap();
    assert_eq!(verify.streams[0].params.codec_id, CodecId::PcmS16Le);
    let out_pkt = verify.read_packet().unwrap();
    assert_eq!(out_pkt.data.data(), &pcm_data);
}

#[test]
fn e2e_pipeline_with_defaults() {
    let pipeline = Pipeline::with_defaults();
    let pcm_data = vec![0u8; 200];
    let wav_in = build_wav(44100, 1, &pcm_data);
    let mut input = InputContext::new(IOContext::from_memory(wav_in), Box::new(WavDemuxer::new()));
    let mut output = OutputContext::new(IOContext::memory_writer(), Box::new(WavMuxer::new()));
    let result = transcode(&pipeline, &mut input, &mut output, &[CodecId::PcmS16Le]).unwrap();
    assert_eq!(result.packets_read, result.packets_written);
}

#[test]
fn e2e_unsupported_codec() {
    let pipeline = Pipeline::with_defaults();
    let wav_in = build_wav(44100, 1, &vec![0u8; 100]);
    let mut input = InputContext::new(IOContext::from_memory(wav_in), Box::new(WavDemuxer::new()));
    let mut output = OutputContext::new(IOContext::memory_writer(), Box::new(WavMuxer::new()));
    assert!(transcode(&pipeline, &mut input, &mut output, &[CodecId::Aac]).is_err());
}

#[test]
fn e2e_empty_input() {
    let pipeline = Pipeline::with_defaults();
    let mut input = InputContext::new(IOContext::from_memory(vec![]), Box::new(WavDemuxer::new()));
    let mut output = OutputContext::new(IOContext::memory_writer(), Box::new(WavMuxer::new()));
    assert!(transcode(&pipeline, &mut input, &mut output, &[]).is_err());
}

#[test]
fn e2e_wav_rejects_big_endian_output() {
    let pipeline = Pipeline::with_defaults();
    let wav_in = build_wav(8000, 1, &[0x01, 0x02, 0x03, 0x04]);
    let mut input = InputContext::new(IOContext::from_memory(wav_in), Box::new(WavDemuxer::new()));
    let mut output = OutputContext::new(IOContext::memory_writer(), Box::new(WavMuxer::new()));
    // The WAV muxer takes little-endian PCM only: the header fails.
    assert!(transcode(&pipeline, &mut input, &mut output, &[CodecId::PcmS16Be]).is_err());
}

// ── the step machine ──

#[test]
fn next_step_reads_until_end_then_flushes() {
    assert_eq!(next_step(Step::ReadPacket, Outcome::Done(0), 1), Step::ReceiveFrame(0));
    assert_eq!(next_step(Step::ReadPacket, Outcome::Done(5), 1), Step::ReadPacket);
    assert_eq!(next_step(Step::ReceiveFrame(0), Outcome::Done(0), 1), Step::ReceivePacket(0));
    assert_eq!(next_step(Step::ReceivePacket(0), Outcome::Again, 1), Step::ReceiveFrame(0));
    assert_eq!(next_step(Step::ReceiveFrame(0), Outcome::Again, 1), Step::ReadPacket);
    assert_eq!(next_step(Step::ReadPacket, Outcome::End, 2), Step::FlushDecoder(0));
    assert_eq!(next_step(Step::ReadPacket, Outcome::End, 0), Step::WriteTrailer);
    assert_eq!(next_step(Step::FinalPacket(0), Outcome::End, 2), Step::FlushDecoder(1));
    assert_eq!(next_step(Step::FinalPacket(1), Outcome::Again, 2), Step::WriteTrailer);
    assert_eq!(next_step(Step::WriteTrailer, Outcome::Done(0), 2), Step::Finished);
}

#[test]
fn next_step_failure_is_final() {
    assert_eq!(next_step(Step::ReceiveFrame(0), Outcome::End, 1), Step::Failed);
    assert_eq!(next_step(Step::ReadPacket, Outcome::Error, 1), Step::Failed);
    for o in [Outcome::Done(0), Outcome::Again, Outcome::End, Outcome::Error] {
        assert_eq!(next_step(Step::Failed, o, 3), Step::Failed);
        assert_eq!(next_step(Step::Finished, o, 3), Step::Finished);
    }
}
