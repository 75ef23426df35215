//! Audio decisions: which backend plays a sound, whether a scheduled
//! playback is still running (so the voice loop can ignore its echo), which
//! voice-activity detector runs, and whether noise suppression is on.
//!
//! The sample processing itself (gain, energy, noise suppression) works on
//! floating point and is done by the caller.
use vstd::prelude::*;
use crate::config::{AudioType, NoiseSuppressionBackend};
use crate::text::{owned, str_eq};

verus! {

/// Where a sound goes.
#[derive(Debug, Clone, Copy, PartialEq, Eq, Structural)]
pub enum PlayRoute {
    /// Audio was not started: the sound is dropped.
    NotInitialized,
    Rodio,
    Kira,
}

/// Routes a sound by the audio backend that was started, if any.
pub fn play_route(audio_type: Option<AudioType>) -> (r: PlayRoute)
    ensures
        audio_type is None ==> r == PlayRoute::NotInitialized,
        audio_type == Some(AudioType::Rodio) ==> r == PlayRoute::Rodio,
        audio_type == Some(AudioType::Kira) ==> r == PlayRoute::Kira,
{
    match audio_type {
        None => PlayRoute::NotInitialized,
        Some(AudioType::Rodio) => PlayRoute::Rodio,
        Some(AudioType::Kira) => PlayRoute::Kira,
    }
}

/// The backend to start: none when one is already started, else the
/// default.
pub fn audio_init_plan(current: Option<AudioType>, default: AudioType) -> (r: Option<AudioType>)
    ensures
        current is Some ==> r is None,
        current is None ==> r == Some(default),
{
    match current {
        Some(_) => None,
        None => Some(default),
    }
}

/// A playback ending at `ends` (0: nothing scheduled) is running at `now`.
pub open spec fn playing_at(ends: int, now: int) -> bool {
    ends != 0 && now < ends
}

/// Whether the last scheduled playback is still running at `now_ms`: it
/// ends at `ends_at_ms`, and 0 means nothing was scheduled.
pub fn is_playing(ends_at_ms: u64, now_ms: u64) -> (r: bool)
    ensures
        r == playing_at(ends_at_ms as int, now_ms as int),
{
    if ends_at_ms == 0 {
        return false;
    }
    now_ms < ends_at_ms
}

/// When a sound started at `now_ms` and lasting `duration_ms` ends.
pub fn playback_end(now_ms: u64, duration_ms: u64) -> (r: u64)
    requires
        now_ms + duration_ms <= u64::MAX,
    ensures
        r == now_ms + duration_ms,
{
    now_ms + duration_ms
}

/// A sound started at `start` (after the epoch) and lasting `duration`
/// counts as playing exactly from its start until it ends, and not at all
/// when it lasts nothing; before any sound (end 0) nothing plays.
pub proof fn law_playing_until_end(start: u64, duration: u64, now: u64)
    requires
        start > 0,
        start + duration <= u64::MAX,
        start <= now,
    ensures
        playing_at(start + duration, now as int) == (now < start + duration),
        duration == 0 ==> !playing_at(start + duration, now as int),
        !playing_at(0, now as int),
{
}

/// The voice-activity detector that runs.
#[derive(Debug, Clone, Copy, PartialEq, Eq, Structural)]
pub enum VadDetector {
    /// Every frame counts as voice.
    Off,
    /// Energy threshold.
    Energy,
}

/// The detector setting: the one of the settings, else `"energy"`.
pub fn vad_backend_setting(configured: Option<&str>) -> (r: String)
    ensures
        configured matches Some(c) ==> r@ == c@,
        configured is None ==> r@ == "energy"@,
{
    match configured {
        Some(c) => owned(c),
        None => owned("energy"),
    }
}

/// The detector for the recorded setting: off when it is `"none"` or not
/// started; the energy detector for `"energy"` and for any other value.
pub fn vad_detector(backend: Option<&str>) -> (r: VadDetector)
    ensures
        r == VadDetector::Off <==> (backend is None || (backend matches Some(b) && b@ == "none"@)),
{
    match backend {
        None => VadDetector::Off,
        Some(b) => {
            if str_eq(b, "none") {
                VadDetector::Off
            } else {
                VadDetector::Energy
            }
        },
    }
}

/// Noise suppression runs unless its backend is off.
pub fn has_noise_suppression(ns: NoiseSuppressionBackend) -> (r: bool)
    ensures
        r == (ns != NoiseSuppressionBackend::Off),
{
    match ns {
        NoiseSuppressionBackend::Off => false,
        _ => true,
    }
}

} // verus!
