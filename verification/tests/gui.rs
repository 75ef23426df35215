use jarvis_core::catalog::Task;
use jarvis_core::gui::{forward_slashes, is_audio_extension, sort_scripts_by_name, sort_strings, task_from_name, GlinerVariant, VoskModel};
use jarvis_core::scripts::Script;

fn script(id: &str, name: &str) -> Script {
    Script {
        id: id.to_string(),
        name: name.to_string(),
        description: String::new(),
        mode: "sequential".to_string(),
        steps: vec![],
        phrases_ru: vec![],
        phrases_en: vec![],
        patterns: vec![],
        sounds_ru: vec![],
        response_sound: String::new(),
    }
}

#[test]
fn task_names() {
    assert_eq!(task_from_name("intent"), Some(Task::Intent));
    assert_eq!(task_from_name("slots"), Some(Task::Slots));
    assert_eq!(task_from_name("stt"), Some(Task::Stt));
    assert_eq!(task_from_name("vad"), Some(Task::Vad));
    assert_eq!(task_from_name("noise_suppression"), Some(Task::NoiseSuppression));
    assert_eq!(task_from_name("tts"), None);
}

#[test]
fn strings_sort_like_str() {
    let v = vec!["voices/b.wav", "voices/a.ogg", "Voices/z.mp3", "voices/a.mp3"].into_iter().map(String::from).collect();
    assert_eq!(sort_strings(v), vec!["Voices/z.mp3", "voices/a.mp3", "voices/a.ogg", "voices/b.wav"]);
    let mut expect: Vec<String> = vec!["я".into(), "a".into(), "ё".into(), "b".into()];
    let got = sort_strings(expect.clone());
    expect.sort();
    assert_eq!(got, expect);
}

#[test]
fn scripts_sort_by_name_stably() {
    let v = vec![script("1", "Zeta"), script("2", "alpha"), script("3", "Zeta"), script("4", "Beta")];
    let ids: Vec<String> = sort_scripts_by_name(v).into_iter().map(|s| s.id).collect();
    assert_eq!(ids, vec!["4", "1", "3", "2"]);
}

#[test]
fn sound_file_listing_helpers() {
    assert!(is_audio_extension("wav") && is_audio_extension("mp3") && is_audio_extension("ogg"));
    assert!(!is_audio_extension("WAV") && !is_audio_extension("txt"));
    assert_eq!(forward_slashes("voices\\jarvis\\ru\\ok1.wav"), "voices/jarvis/ru/ok1.wav");
    let m = VoskModel { name: "small-ru".into(), language: "ru".into(), size: "45M".into() };
    assert_eq!(m.clone(), m);
    let g = GlinerVariant { display_name: "Small".into(), value: "gliner-small".into() };
    assert_eq!(g.value, "gliner-small");
}
