//! Integer-domain building blocks of the truce plugin framework:
//! MIDI wire-value conversions, the VST3 MIDI-CC proxy parameter
//! space, standalone launch defaults, WAV playback layout, and the
//! home-directory decision used by the `cargo truce` tooling.

pub mod midi;
pub mod vst3_midi_cc_proxy;
pub mod playback;
pub mod ops;
pub mod standalone;
pub mod dirs;
