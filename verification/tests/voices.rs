use jarvis_core::voices::{
    get_voice, pick_sound, preview_sounds, reaction_sounds, reactions_for, select_voice,
    sound_file_candidates, sounds_for, Reaction, TimeOfDay, VoiceConfig, VoiceMeta, VoiceReactions,
};

fn voice(id: &str, langs: &[&str]) -> VoiceConfig {
    let mut r = VoiceReactions::default();
    r.greet = vec!["hello".into()];
    r.greet_morning = vec!["morning".into()];
    r.reply = vec!["yes".into()];
    r.ok = vec!["ok1".into(), "ok2".into()];
    VoiceConfig {
        path: format!("/voices/{id}"),
        voice: VoiceMeta {
            id: id.into(),
            name: id.into(),
            author: String::new(),
            languages: langs.iter().map(|s| s.to_string()).collect(),
        },
        reactions: vec![("ru".into(), r)],
    }
}

#[test]
fn time_of_day_by_hour() {
    assert_eq!(TimeOfDay::from_hour(4), TimeOfDay::Night);
    assert_eq!(TimeOfDay::from_hour(5), TimeOfDay::Morning);
    assert_eq!(TimeOfDay::from_hour(11), TimeOfDay::Morning);
    assert_eq!(TimeOfDay::from_hour(12), TimeOfDay::Day);
    assert_eq!(TimeOfDay::from_hour(16), TimeOfDay::Day);
    assert_eq!(TimeOfDay::from_hour(17), TimeOfDay::Evening);
    assert_eq!(TimeOfDay::from_hour(21), TimeOfDay::Evening);
    assert_eq!(TimeOfDay::from_hour(22), TimeOfDay::Night);
    assert_eq!(TimeOfDay::from_hour(0), TimeOfDay::Night);
    let _ = TimeOfDay::now();
}

#[test]
fn voice_selection() {
    let voices = vec![voice("jarvis-og", &["ru"]), voice("friday", &["en", "ua"])];
    assert_eq!(select_voice(&voices, "friday", "ru"), Ok("friday".to_string()));
    assert_eq!(select_voice(&voices, "", "ua"), Ok("friday".to_string()));
    assert_eq!(select_voice(&voices, "missing", "de"), Ok("jarvis-og".to_string()));
    assert_eq!(select_voice(&vec![], "", "ru"), Err("No voices found".to_string()));
    assert_eq!(get_voice(&voices, "friday").unwrap().path, "/voices/friday");
    assert!(get_voice(&voices, "nobody").is_none());
}

#[test]
fn reactions_pick_their_sounds() {
    let v = voice("jarvis-og", &["ru"]);
    let r = reactions_for(&v, "ru").unwrap();
    assert_eq!(reaction_sounds(r, Reaction::Greet, TimeOfDay::Morning), &vec!["morning".to_string()]);
    // no evening greeting: the plain greeting is used
    assert_eq!(reaction_sounds(r, Reaction::Greet, TimeOfDay::Evening), &vec!["hello".to_string()]);
    assert_eq!(reaction_sounds(r, Reaction::Success, TimeOfDay::Day).len(), 2);
    assert!(reaction_sounds(r, Reaction::Goodbye, TimeOfDay::Day).is_empty());
    assert!(reactions_for(&v, "en").is_none());
    assert!(sounds_for(Some(&v), "en", Reaction::Reply, TimeOfDay::Day).is_none());
    assert!(sounds_for(None, "ru", Reaction::Reply, TimeOfDay::Day).is_none());
    assert_eq!(sounds_for(Some(&v), "ru", Reaction::Reply, TimeOfDay::Day), Some(&vec!["yes".to_string()]));
    assert_eq!(preview_sounds(r), vec!["yes", "ok1", "ok2", "hello"]);
}

#[test]
fn sound_files_and_random_pick() {
    let c: Vec<(bool, String)> = sound_file_candidates("ok1").into_iter().map(|c| (c.in_language_folder, c.file_name)).collect();
    assert_eq!(
        c,
        vec![
            (true, "ok1.mp3".to_string()),
            (true, "ok1.wav".to_string()),
            (true, "ok1.ogg".to_string()),
            (false, "ok1.mp3".to_string()),
            (false, "ok1.wav".to_string()),
            (false, "ok1.ogg".to_string()),
        ]
    );
    let sounds = vec!["a".to_string(), "b".to_string()];
    for _ in 0..20 {
        let s = pick_sound(&sounds).unwrap();
        assert!(sounds.contains(s));
    }
    assert!(pick_sound(&vec![]).is_none());
}
