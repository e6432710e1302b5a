//! Core of a MIDI sequencer's real-time audio rendering pipeline.
//!
//! The library models time in integer nanoseconds and audio samples in
//! decimal fixed point, so that every conversion, cursor movement and
//! gain computation carries a proved contract.  The surrounding
//! application owns the audio device, the synthesis engine and the user
//! interface; it hands this library plain values and acts on the
//! decisions the library returns.

pub mod controller;
pub mod events;
pub mod tempo;
pub mod generator;
pub mod limiter;
pub mod navigation;
pub mod notes;
pub mod piano_roll;
pub mod playback;
pub mod ring;
pub mod settings;
