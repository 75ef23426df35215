use jarvis_core::audio::{
    audio_init_plan, has_noise_suppression, is_playing, play_route, playback_end, vad_backend_setting,
    vad_detector, PlayRoute, VadDetector,
};
use jarvis_core::config::{AudioType, NoiseSuppressionBackend};

#[test]
fn playback_gate() {
    assert!(!is_playing(0, 5));
    assert!(is_playing(100, 99));
    assert!(!is_playing(100, 100));
    assert_eq!(playback_end(1_000, 250), 1_250);
}

#[test]
fn audio_routes() {
    assert_eq!(play_route(None), PlayRoute::NotInitialized);
    assert_eq!(play_route(Some(AudioType::Kira)), PlayRoute::Kira);
    assert_eq!(play_route(Some(AudioType::Rodio)), PlayRoute::Rodio);
    assert_eq!(audio_init_plan(Some(AudioType::Kira), AudioType::Kira), None);
    assert_eq!(audio_init_plan(None, AudioType::Kira), Some(AudioType::Kira));
}

#[test]
fn voice_activity_detector() {
    assert_eq!(vad_backend_setting(None), "energy");
    assert_eq!(vad_backend_setting(Some("none")), "none");
    assert_eq!(vad_detector(None), VadDetector::Off);
    assert_eq!(vad_detector(Some("none")), VadDetector::Off);
    assert_eq!(vad_detector(Some("energy")), VadDetector::Energy);
    assert_eq!(vad_detector(Some("nnnoiseless")), VadDetector::Energy);
    assert!(!has_noise_suppression(NoiseSuppressionBackend::Off));
    assert!(has_noise_suppression(NoiseSuppressionBackend::Nnnoiseless));
}

#[test]
fn a_sound_plays_until_it_ends() {
    let end = playback_end(1_000, 250);
    assert_eq!(end, 1_250);
    assert!(is_playing(end, 1_000));
    assert!(is_playing(end, 1_249));
    assert!(!is_playing(end, 1_250));
    assert!(!is_playing(playback_end(1_000, 0), 1_000));
}
