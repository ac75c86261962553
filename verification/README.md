# justav

A small multimedia toolkit — rational time arithmetic, sample and pixel
formats, byte and audio FIFOs, codec bitstream parsers (ADTS, H.264 NAL
units and SPS, Opus TOC, SRT/ASS/WebVTT subtitles), PCM codecs, and WAV
and MP4 demuxing and muxing — whose behaviour is stated in `requires` /
`ensures` contracts and proved with Verus.

Layout:

- `src/util`: errors, text helpers, rationals, rescaling, timestamps,
  sample and pixel formats, buffers, frames, FIFOs, dictionaries, CRC-32,
  base64, channel layouts, log levels.
- `src/codec`: packets, codec parameters, the codec registry and context
  state machine, bitstream filters, and the individual codecs and parsers.
- `src/format`: the in-memory I/O context, streams, the WAV and MP4
  containers, seeking, interleaving, probing, protocol URL matching, and
  the input/output contexts.
- `src/pipeline.rs`: opening decoder/encoder pairs and the step machine of
  a transcode.
- `app/`: what the verified library leaves out — file and pipe I/O,
  logging through `tracing`, conversions to and from `f64`, typed options,
  and the loop that drives a transcode.
- `tests/`: unit and end-to-end tests.
