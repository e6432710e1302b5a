//! Application and project settings consumed by the audio pipeline:
//! the soundfont to load, the synthesis layer count, and the project's
//! musical defaults.

use vstd::prelude::*;

verus! {

/// Audio-engine settings.
pub struct AudioSettings {
    /// Path of the soundfont handed to the synthesis engine.
    pub soundfont_path: String,
    /// Polyphony layers per channel.
    pub num_layers: usize,
}

impl Default for AudioSettings {
    fn default() -> (r: Self)
        ensures
            r.soundfont_path@ == "/assets/soundfonts/Sinufont.sf2"@,
            r.num_layers == 5,
    {
        AudioSettings { soundfont_path: "/assets/soundfonts/Sinufont.sf2".to_string(), num_layers: 5 }
    }
}

impl AudioSettings {
    pub fn new() -> (r: Self)
        ensures
            r.soundfont_path@ == "/assets/soundfonts/Sinufont.sf2"@,
            r.num_layers == 5,
    {
        AudioSettings::default()
    }

    pub fn set_soundfont_path(&mut self, sf_path: String)
        ensures
            final(self).soundfont_path == sf_path,
            final(self).num_layers == old(self).num_layers,
    {
        self.soundfont_path = sf_path;
    }
}

/// All application-level settings.
pub struct ApplicationSettings {
    pub audio_settings: AudioSettings,
}

impl ApplicationSettings {
    /// Mutable access to the audio settings.
    pub fn get_audio_settings(&mut self) -> (r: &mut AudioSettings)
        ensures
            *r == old(self).audio_settings,
            final(self).audio_settings == *final(r),
    {
        &mut self.audio_settings
    }
}

impl Default for ApplicationSettings {
    fn default() -> (r: Self)
        ensures
            r.audio_settings.soundfont_path@ == "/assets/soundfonts/Sinufont.sf2"@,
            r.audio_settings.num_layers == 5,
    {
        ApplicationSettings { audio_settings: AudioSettings::default() }
    }
}

/// Per-project musical defaults.
pub struct ProjectSettings {
    /// Tempo a fresh project starts with, in beats per minute.
    pub initial_bpm: u32,
    /// Ticks per quarter note.
    pub ppq: u16,
}

impl Default for ProjectSettings {
    fn default() -> (r: Self)
        ensures
            r.initial_bpm == 160,
            r.ppq == 1920,
    {
        ProjectSettings { initial_bpm: 160, ppq: 1920 }
    }
}

} // verus!
