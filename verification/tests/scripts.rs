use jarvis_core::commands::{JCommand, JCommandsList};
use jarvis_core::matching::fetch_script;
use jarvis_core::scripts::{
    after_step, as_virtual_commands, exec_command_ref, exec_step, execute_script, run_sequential, RunMode, RunState, Script,
    ScriptStep, StepAction,
};

fn make_script(id: &str, phrases_ru: Vec<&str>) -> Script {
    Script {
        id: id.to_string(),
        name: id.to_string(),
        description: String::new(),
        mode: "sequential".to_string(),
        steps: vec![],
        phrases_ru: phrases_ru.iter().map(|s| s.to_string()).collect(),
        phrases_en: vec![],
        patterns: vec![],
        sounds_ru: vec![],
        response_sound: String::new(),
    }
}

fn step(step_type: &str) -> ScriptStep {
    ScriptStep {
        step_type: step_type.to_string(),
        label: String::new(),
        pack: String::new(),
        command_id: String::new(),
        delay_ms: 0,
        cli_cmd: String::new(),
        cli_args: vec![],
        spotify_action: String::new(),
        spotify_track_id: String::new(),
    }
}

#[test]
fn test_fetch_script_empty_list_returns_none() {
    assert!(fetch_script("открой ночной режим", &[], "ru", None).is_none());
}

#[test]
fn test_fetch_script_exact_match() {
    let scripts = vec![make_script("night_mode", vec!["включи ночной режим"])];
    let result = fetch_script("включи ночной режим", &scripts, "ru", None);
    assert!(result.is_some());
    assert_eq!(result.unwrap().id, "night_mode");
}

#[test]
fn test_fetch_script_no_match_for_unrelated_text() {
    let scripts = vec![make_script("night_mode", vec!["включи ночной режим"])];
    assert!(fetch_script("open browser settings now", &scripts, "ru", None).is_none());
}

#[test]
fn fetch_script_exact_ignores_case_and_spaces() {
    let scripts = vec![make_script("a", vec!["  Первая "]), make_script("b", vec!["вторая"])];
    assert_eq!(fetch_script("ВТОРАЯ", &scripts, "en", None).unwrap().id, "b");
    assert_eq!(fetch_script(" первая", &scripts, "ru", None).unwrap().id, "a");
}

#[test]
fn fetch_script_regex_wins_over_exact() {
    let mut a = make_script("exact", vec!["свет"]);
    a.patterns = vec![];
    let mut b = make_script("regex", vec![]);
    b.patterns = vec!["св.т".to_string()];
    let scripts = vec![a, b];
    assert_eq!(fetch_script("свет", &scripts, "ru", None).unwrap().id, "regex");
    // the fuzzy pick counts only when neither pass matched
    assert_eq!(fetch_script("что-то", &scripts, "ru", Some(0)).unwrap().id, "exact");
    assert!(fetch_script("что-то", &scripts, "ru", Some(5)).is_none());
}

#[test]
fn script_phrases_fall_back_to_russian() {
    let mut s = make_script("s", vec!["привет"]);
    assert_eq!(s.get_phrases("en"), vec!["привет".to_string()]);
    s.phrases_en = vec!["hello".to_string()];
    assert_eq!(s.get_phrases("en"), vec!["hello".to_string()]);
    assert_eq!(s.get_phrases("de"), vec!["привет".to_string()]);
    assert_eq!(s.get_sounds("ru"), vec!["ok1", "ok2", "ok3"]);
    s.patterns = vec!["x".to_string()];
    assert_eq!(s.trigger_count(), 3);
}

#[test]
fn run_modes_and_steps() {
    let mut s = make_script("s", vec![]);
    assert_eq!(execute_script(&s), RunMode::Sequential);
    s.mode = "parallel".to_string();
    assert_eq!(execute_script(&s), RunMode::Parallel);
    let steps = vec![step("delay"), step("custom")];
    assert_eq!(run_sequential(&steps), RunState::Next(0));
    assert_eq!(run_sequential(&[]), RunState::Finished(Ok(())));
    assert_eq!(after_step(&steps, 0, Ok(())), RunState::Next(1));
    assert_eq!(after_step(&steps, 1, Ok(())), RunState::Finished(Ok(())));
    assert_eq!(after_step(&steps, 0, Err("e".to_string())), RunState::Finished(Err("e".to_string())));
}

#[test]
fn step_actions() {
    let mut d = step("delay");
    d.delay_ms = 250;
    assert_eq!(exec_step(&d), StepAction::Delay { ms: 250 });
    assert_eq!(exec_step(&step("custom")), StepAction::Fail("Custom script step has no command".to_string()));
    let mut sp = step("spotify");
    sp.spotify_action = "play_track".to_string();
    assert_eq!(exec_step(&sp), StepAction::Fail("Spotify step: track ID is empty".to_string()));
    sp.spotify_track_id = "abc".to_string();
    assert_eq!(exec_step(&sp), StepAction::Spotify { ps_cmd: "Start-Process 'spotify:track:abc'".to_string() });
    sp.spotify_action = "rewind".to_string();
    assert_eq!(exec_step(&sp), StepAction::Fail("Unknown spotify action: 'rewind'".to_string()));
    assert_eq!(exec_step(&step("teleport")), StepAction::Fail("Unknown script step type: 'teleport'".to_string()));
}

#[test]
fn virtual_commands_skip_scripts_without_phrases() {
    let scripts = vec![make_script("none", vec![]), make_script("night", vec!["ночь"])];
    let v = as_virtual_commands(&scripts, "/scripts");
    assert_eq!(v.len(), 1);
    assert_eq!(v[0].path, "/scripts");
    assert_eq!(v[0].commands[0].id, "night");
    assert_eq!(v[0].commands[0].cmd_type, "script_ref");
}

#[test]
fn command_ref_takes_first_pack_and_first_command_with_the_id() {
    let packs = vec![
        JCommandsList { path: "/x/other".to_string(), commands: vec![JCommand::new("go", "voice")] },
        JCommandsList { path: "/x/main/a".to_string(), commands: vec![JCommand::new("stop", "voice")] },
        JCommandsList {
            path: "/x/main/b".to_string(),
            commands: vec![JCommand::new("go", "url"), JCommand::new("go", "exe")],
        },
        JCommandsList { path: "/x/main/c".to_string(), commands: vec![JCommand::new("go", "cli")] },
    ];
    let names: Vec<String> = vec!["other".into(), "main".into(), "main".into(), "main".into()];
    let (path, cmd) = exec_command_ref(&packs, &names, "main", "go").unwrap();
    assert_eq!(path, "/x/main/b");
    assert_eq!(cmd.cmd_type, "url");
    assert_eq!(
        exec_command_ref(&packs, &names, "main", "nope").unwrap_err(),
        "Script command ref 'main/nope' not found"
    );
}
