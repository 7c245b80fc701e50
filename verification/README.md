# truce (verified core)

The integer-domain logic of the truce audio-plugin framework, written
in Verus and proved against its contracts:

- `src/midi.rs` — 14-bit pitch-bend byte split/join, the MIDI 2.0
  min-center-max upconvert (7→16, 7→32, 14→32 bits) and the
  truncating downconverts, with the round-trip and endpoint laws.
- `src/vst3_midi_cc_proxy.rs` — the 16 × 128 MIDI-CC proxy parameter
  id block, its round-trip laws, and the proxy descriptors with their
  `"CC <ch>:<cc>"` names.
- `src/playback.rs` — channel adaptation of a decoded WAV to the
  device channel count and the one-shot playback cursor.
- `src/ops.rs` — element-type-agnostic block copy / clear.
- `src/dirs.rs`, `src/standalone.rs` — home-directory decision and
  standalone launch defaults.

`app/` holds what stays outside the proofs: floating-point value
mapping, smoothing and SIMD DSP (via `wide`), WAV decoding (via
`hound`), environment reads and external commands.
`tests/` exercises the library on concrete values.
