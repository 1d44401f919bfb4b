# Bellow core

The control and bookkeeping logic of the Bellow audio engine, written in Verus
and proved against its contracts.

- `src/` — the verified library: the message ring buffer (`ringbuf`), the sample
  clock (`clock`), the engine's control state and sound registry (`engine`,
  `sound_id`), the voice table and frame walk of the mixer (`graph`, `mixer`),
  the playback-queue cursor (`queue`), the decoder's track and block rules
  (`decode`), device-list building and stream settings (`devices`), the
  sidecar transport's framing and request routing with its replies (`frame`,
  `rpc`), error types and their texts (`error`), the interleaved/planar moves
  of the resampler (`planar`) and the DSP parts without sample arithmetic
  (`dsp`).
- `app/` — the runtime around it: CPAL device I/O, Symphonia decoding, rubato
  resampling, the floating-point DSP nodes and meters, the Tokio sidecar server
  and the Node.js binding.
- `tests/` — tests of the library on concrete values.
