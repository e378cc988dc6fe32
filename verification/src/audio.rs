//! Audio configuration shared by timers, effects and alerts.

use vstd::prelude::*;

verus! {

/// Audio configuration shared by timers, effects and alerts.
#[derive(Debug, Clone, PartialEq)]
pub struct AudioConfig {
    /// Master toggle for audio on this item.
    pub enabled: bool,
    /// Audio file to play: folder-relative under the bundled definitions
    /// (`"sounds/Alert.mp3"`), a bare file name (looked up under `sounds/`),
    /// or an absolute path.
    pub file: Option<String>,
    /// Seconds before expiration to play audio (0 = on expiration).
    pub offset: u8,
    /// Start countdown audio at this many seconds remaining (0 = disabled).
    pub countdown_start: u8,
    /// Voice pack for the countdown (`None` = default).
    pub countdown_voice: Option<String>,
    /// Text for the alert overlay when the item triggers.
    pub alert_text: Option<String>,
    /// When set, the cue waits until this many seconds remain on the GCD;
    /// held as the bit pattern of the `f32` seconds (`f32::to_bits`).
    pub at_gcd_remaining: Option<u32>,
}

impl AudioConfig {
    /// Every field holds its default value.
    pub open spec fn spec_is_default(&self) -> bool {
        &&& !self.enabled
        &&& self.file is None
        &&& self.offset == 0
        &&& self.countdown_start == 0
        &&& self.countdown_voice is None
        &&& self.alert_text is None
        &&& self.at_gcd_remaining is None
    }

    /// Some audio is configured.
    pub open spec fn spec_has_audio(&self) -> bool {
        self.enabled && (self.file is Some || self.countdown_start > 0)
    }

    /// Countdown audio is configured.
    pub open spec fn spec_has_countdown(&self) -> bool {
        self.enabled && self.countdown_start > 0
    }

    /// A non-empty alert text is configured.
    pub open spec fn spec_has_alert_text(&self) -> bool {
        self.alert_text matches Some(t) && t@.len() > 0
    }

    /// Whether every field holds its default value.
    pub fn is_default(&self) -> (res: bool)
        ensures
            res == self.spec_is_default(),
    {
        !self.enabled && self.file.is_none() && self.offset == 0 && self.countdown_start == 0
            && self.countdown_voice.is_none() && self.alert_text.is_none()
            && self.at_gcd_remaining.is_none()
    }

    /// Whether any audio is configured.
    pub fn has_audio(&self) -> (res: bool)
        ensures
            res == self.spec_has_audio(),
    {
        self.enabled && (self.file.is_some() || self.countdown_start > 0)
    }

    /// Whether countdown audio is enabled.
    pub fn has_countdown(&self) -> (res: bool)
        ensures
            res == self.spec_has_countdown(),
    {
        self.enabled && self.countdown_start > 0
    }

    /// Whether a non-empty alert text is configured.
    pub fn has_alert_text(&self) -> (res: bool)
        ensures
            res == self.spec_has_alert_text(),
    {
        match &self.alert_text {
            Some(t) => !t.as_str().is_empty(),
            None => false,
        }
    }
}

impl Default for AudioConfig {
    fn default() -> (res: Self)
        ensures
            res.spec_is_default(),
    {
        AudioConfig {
            enabled: false,
            file: None,
            offset: 0,
            countdown_start: 0,
            countdown_voice: None,
            alert_text: None,
            at_gcd_remaining: None,
        }
    }
}

/// An item with countdown audio has audio.
pub proof fn lemma_countdown_implies_audio(c: AudioConfig)
    requires
        c.spec_has_countdown(),
    ensures
        c.spec_has_audio(),
{
}

/// The master toggle gates all audio: a configuration with audio or with a
/// countdown is enabled, and a disabled one has neither, whatever its file
/// and countdown settings.
pub proof fn lemma_audio_needs_master_toggle(c: AudioConfig)
    ensures
        c.spec_has_audio() ==> c.enabled,
        c.spec_has_countdown() ==> c.enabled,
        !c.enabled ==> !c.spec_has_audio() && !c.spec_has_countdown(),
{
}

/// An enabled configuration with a file, or with a countdown, has audio;
/// one with neither has none.
pub proof fn lemma_enabled_audio_sources(c: AudioConfig)
    requires
        c.enabled,
    ensures
        c.file is Some ==> c.spec_has_audio(),
        c.countdown_start > 0 ==> c.spec_has_audio() && c.spec_has_countdown(),
        c.file is None && c.countdown_start == 0 ==> !c.spec_has_audio() && !c.spec_has_countdown(),
{
}

/// A default configuration plays nothing and shows no alert.
pub proof fn lemma_default_is_silent(c: AudioConfig)
    requires
        c.spec_is_default(),
    ensures
        !c.spec_has_audio(),
        !c.spec_has_countdown(),
        !c.spec_has_alert_text(),
{
}

} // verus!
