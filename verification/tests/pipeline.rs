use jarvis_core::commands::{JCommand, JCommandsList};
use jarvis_core::config::AssistantState;
use jarvis_core::matching::{fetch_command, fetch_script};
use jarvis_core::pipeline::{
    classify_utterance, command_response, finish_dispatch, lookup_command, outcome_for, report_fits_exec, RunReport, process_text_command, route_command,
    script_response, CommandLoop, DispatchOutcome, Feedback, ListenAction, ResponseSound, Route,
    UiEvent, Utterance, VadState, WakeAction, WakeLoop,
};
use jarvis_core::scripts::Script;

fn strings(v: &[&str]) -> Vec<String> {
    v.iter().map(|s| s.to_string()).collect()
}

#[test]
fn test_execute_command_returns_false_when_no_commands_loaded() {
    let commands: Vec<JCommandsList> = vec![];
    let text = "запусти ведьмака";
    let found = lookup_command(text, &commands, None, None, None);
    assert!(found.is_none());
    assert!(matches!(route_command(found), Route::TryScripts));
    let scripts: Vec<Script> = vec![];
    assert!(fetch_script(text, &scripts, "ru", None).is_none());
    let outcome = outcome_for(found, text, RunReport::PhraseScript(None));
    let report = finish_dispatch(outcome);
    assert!(!report.chain, "execute_command must return false (no chain) when commands list is empty");
}

#[test]
fn utterances_are_classified() {
    let wake = strings(&["джарвис"]);
    let fillers = strings(&["пожалуйста"]);
    assert_eq!(classify_utterance("Джарвис", &wake, &fillers), Utterance::OnlyWakeWord);
    assert_eq!(
        classify_utterance("Джарвис открой браузер пожалуйста", &wake, &fillers),
        Utterance::Command("открой браузер".to_string())
    );
    // two Cyrillic letters are four bytes: too short
    assert_eq!(classify_utterance("да", &wake, &fillers), Utterance::TooShort);
    assert_eq!(classify_utterance("Дай", &wake, &fillers), Utterance::Command("дай".to_string()));
    assert_eq!(classify_utterance("джарвис да", &wake, &fillers), Utterance::TooShort);
}

#[test]
fn typed_text_commands() {
    let fillers = strings(&["пожалуйста"]);
    assert_eq!(process_text_command("  Открой Пожалуйста  ", &fillers), Some("открой".to_string()));
    assert_eq!(process_text_command("Пожалуйста", &fillers), None);
}

#[test]
fn wake_loop_counts_silence() {
    let mut w = WakeLoop::new(2);
    assert_eq!(w.on_frame(false), WakeAction::Buffer);
    assert_eq!(w.on_frame(true), WakeAction::BufferAndFlush);
    assert_eq!(w.vad_state, VadState::VoiceActive);
    assert_eq!(w.on_frame(false), WakeAction::FeedAndDetect);
    assert_eq!(w.after_detection(false, false), (false, false));
    assert_eq!(w.silence_frames, 1);
    assert_eq!(w.after_detection(false, false), (false, false));
    assert_eq!(w.after_detection(false, false), (false, true));
    assert_eq!(w.vad_state, VadState::WaitingForVoice);
    assert_eq!(w.silence_frames, 0);
    w.on_frame(true);
    assert_eq!(w.after_detection(true, false), (false, false));
    assert_eq!(w.after_detection(false, true), (true, false));
    assert_eq!(w.vad_state, VadState::WaitingForVoice);
}

#[test]
fn command_loop_gives_up_after_silence() {
    let mut c = CommandLoop::new(false, 2);
    assert_eq!(c.on_frame(false), ListenAction::Buffer);
    assert_eq!(c.on_frame(false), ListenAction::Buffer);
    assert_eq!(c.on_frame(false), ListenAction::Exit);
}

#[test]
fn command_loop_handles_recognitions() {
    let wake = strings(&["джарвис"]);
    let fillers = strings(&["пожалуйста"]);
    let mut first = CommandLoop::new(true, 10);
    assert_eq!(first.vad_state, VadState::VoiceActive);
    assert_eq!(first.on_frame(true), ListenAction::Recognize);
    assert_eq!(first.after_recognition(true, Some("Джарвис"), &wake, &fillers), ListenAction::DiscardWakeWord);
    assert!(!first.first_recognition);
    assert_eq!(first.vad_state, VadState::WaitingForVoice);

    let mut c = CommandLoop::new(false, 10);
    assert_eq!(c.on_frame(true), ListenAction::BufferAndFlush);
    assert_eq!(c.after_recognition(true, Some("джарвис"), &wake, &fillers), ListenAction::Reactivate);
    c.on_frame(true);
    assert_eq!(c.after_recognition(true, Some("да"), &wake, &fillers), ListenAction::Ignore);
    assert_eq!(
        c.after_recognition(true, Some("Джарвис включи свет"), &wake, &fillers),
        ListenAction::Execute("включи свет".to_string())
    );
    assert_eq!(c.after_recognition(false, None, &wake, &fillers), ListenAction::Continue);
    assert_eq!(c.silence_frames, 1);
    assert_eq!(c.after_execution(true), ListenAction::ChainNext);
    assert_eq!(c.vad_state, VadState::WaitingForVoice);
    assert_eq!(c.after_execution(false), ListenAction::Exit);
}

#[test]
fn dispatch_reports() {
    let r = finish_dispatch(DispatchOutcome::NotFound { text: "абв".to_string() });
    assert_eq!(r.feedback, Feedback::PlayNotFoundAndResetRecognizer);
    assert_eq!(
        r.events,
        vec![
            UiEvent::StateChanged(AssistantState::Responding),
            UiEvent::Error { message: "Command not found: абв".to_string() },
            UiEvent::Idle,
        ]
    );
    let ok = finish_dispatch(DispatchOutcome::CommandRan { id: "open".to_string(), result: Ok(true) });
    assert!(ok.chain);
    assert_eq!(ok.feedback, Feedback::Quiet);
    assert_eq!(
        ok.events,
        vec![
            UiEvent::StateChanged(AssistantState::Responding),
            UiEvent::CommandExecuted { id: "open".to_string(), success: true },
            UiEvent::Idle,
        ]
    );
    let failed = finish_dispatch(DispatchOutcome::CommandRan { id: "x".to_string(), result: Err("bad".to_string()) });
    assert!(!failed.chain);
    assert_eq!(failed.feedback, Feedback::PlayError);
    assert_eq!(failed.events.len(), 4);
    let script = finish_dispatch(DispatchOutcome::ScriptRan { id: "s".to_string(), result: Err("e".to_string()), via_intent: false });
    assert_eq!(
        script.events,
        vec![
            UiEvent::StateChanged(AssistantState::Responding),
            UiEvent::Error { message: "e".to_string() },
            UiEvent::Idle,
        ]
    );
    let missing = finish_dispatch(DispatchOutcome::ScriptMissing { id: "gone".to_string() });
    assert_eq!(missing.feedback, Feedback::PlayNotFound);
    assert_eq!(
        missing.events[1],
        UiEvent::Error { message: "Script 'gone' was deleted \u{2014} restart Jarvis to update voice triggers".to_string() }
    );
    assert_eq!(missing.events.len(), 4);
    assert!(!missing.chain);
}

#[test]
fn routes_and_responses() {
    let mut c = JCommand::new("s1", "script_ref");
    assert!(matches!(route_command(Some((&"/p".to_string(), &c))), Route::ScriptRef(id) if id == "s1"));
    c.cmd_type = "voice".to_string();
    let p = "/p".to_string();
    match route_command(Some((&p, &c))) {
        Route::Command { path, extract_slots, .. } => {
            assert_eq!(path, "/p");
            assert!(!extract_slots);
        }
        other => panic!("unexpected {:?}", other),
    }
    c.sounds = vec![("ru".to_string(), vec!["ok1".to_string()])];
    assert_eq!(command_response(&c, "ru"), ResponseSound::RandomOf(vec!["ok1".to_string()]));
    c.response_sound = "ding.wav".to_string();
    assert_eq!(command_response(&c, "ru"), ResponseSound::File("ding.wav".to_string()));
    let s = Script {
        id: "s".to_string(),
        name: "s".to_string(),
        description: String::new(),
        mode: "sequential".to_string(),
        steps: vec![],
        phrases_ru: vec![],
        phrases_en: vec![],
        patterns: vec![],
        sounds_ru: vec![],
        response_sound: String::new(),
    };
    assert_eq!(script_response(&s, "ru"), ResponseSound::RandomOf(strings(&["ok1", "ok2", "ok3"])));
}

fn pack(path: &str, cmds: Vec<JCommand>) -> JCommandsList {
    JCommandsList { path: path.to_string(), commands: cmds }
}

fn cmd(id: &str, t: &str, patterns: &[&str]) -> JCommand {
    let mut c = JCommand::new(id, t);
    c.patterns = strings(patterns);
    c
}

#[test]
fn lookup_goes_regex_then_intent_then_fuzzy() {
    let packs = vec![
        pack("/a", vec![cmd("weather", "voice", &["погод"]), cmd("browser", "url", &[])]),
        pack("/b", vec![cmd("browser", "exe", &[])]),
    ];
    // a pattern hit wins over the intent and the fuzzy pick
    let r = lookup_command("  Какая ПОГОДА ", &packs, Some("browser"), None, Some((1, 0))).unwrap();
    assert_eq!(r.1.id, "weather");
    // no pattern: the intent's id, first in pack order
    let r = lookup_command("открой браузер", &packs, Some("browser"), Some("embedding"), Some((0, 0))).unwrap();
    assert_eq!((r.0.as_str(), r.1.cmd_type.as_str()), ("/a", "url"));
    // an intent id no command has: nothing, no fuzzy fallback
    assert!(lookup_command("открой браузер", &packs, Some("music"), None, Some((1, 0))).is_none());
    // recognition recorded as off: nothing from the intent
    assert!(lookup_command("открой браузер", &packs, Some("browser"), Some("none"), None).is_none());
    // no intent: the fuzzy pick, when it names a command
    let r = lookup_command("открой браузер", &packs, None, None, Some((1, 0))).unwrap();
    assert_eq!(r.0, "/b");
    assert!(lookup_command("открой браузер", &packs, None, None, Some((1, 5))).is_none());
    assert!(lookup_command("   ", &packs, None, None, Some((1, 0))).is_none());
}

#[test]
fn outcomes_chain_only_for_commands_that_ask() {
    let path = "/a".to_string();
    let voice = cmd("hello", "voice", &[]);
    let script = cmd("morning", "script_ref", &[]);
    let run = RunReport::Command(Ok(true));
    assert!(report_fits_exec(Some((&path, &voice)), &run));
    assert!(!report_fits_exec(Some((&path, &script)), &run));
    assert!(!report_fits_exec(None, &run));
    let o = outcome_for(Some((&path, &voice)), "привет", run);
    assert_eq!(o, DispatchOutcome::CommandRan { id: "hello".to_string(), result: Ok(true) });
    assert!(finish_dispatch(o).chain);
    let o = outcome_for(Some((&path, &script)), "доброе утро", RunReport::Script(Some(Ok(()))));
    assert_eq!(
        o,
        DispatchOutcome::ScriptRan { id: "morning".to_string(), result: Ok(()), via_intent: true }
    );
    assert!(!finish_dispatch(o).chain);
    let o = outcome_for(Some((&path, &script)), "доброе утро", RunReport::Script(None));
    assert_eq!(o, DispatchOutcome::ScriptMissing { id: "morning".to_string() });
    let o = outcome_for(None, "abc", RunReport::PhraseScript(Some(("s1".to_string(), Err("x".to_string())))));
    assert_eq!(
        o,
        DispatchOutcome::ScriptRan { id: "s1".to_string(), result: Err("x".to_string()), via_intent: false }
    );
    let o = outcome_for(None, "abc", RunReport::PhraseScript(None));
    assert_eq!(o, DispatchOutcome::NotFound { text: "abc".to_string() });
}
