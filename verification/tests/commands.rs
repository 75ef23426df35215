use jarvis_core::commands::{
    complete_command, execute_command, get_command_by_id, lang_lookup, list_paths, merge_packs, parse_commands,
    CommandAction, JCommand, JCommandsList,
};
use jarvis_core::matching::fetch_command;

fn cmd(id: &str, cmd_type: &str) -> JCommand {
    JCommand::new(id, cmd_type)
}

fn with_phrases(mut c: JCommand, lang: &str, phrases: &[&str]) -> JCommand {
    c.phrases.push((lang.to_string(), phrases.iter().map(|s| s.to_string()).collect()));
    c
}

fn cmd_list(cmds: Vec<JCommand>) -> Vec<JCommandsList> {
    vec![JCommandsList { path: "/test".to_string(), commands: cmds }]
}

#[test]
fn test_regex_priority_over_fuzzy() {
    let mut youtube = with_phrases(cmd("youtube", "voice"), "ru", &["открой видео"]);
    youtube.patterns = vec!["ютуб".to_string(), "открой.*ютуб".to_string()];
    let other = with_phrases(cmd("other", "voice"), "ru", &["другая команда"]);
    let list = cmd_list(vec![youtube, other]);
    // even when the fuzzy pass would pick the other command
    let r = fetch_command("открой ютуб пожалуйста", &list, Some((0, 1)));
    assert!(r.is_some());
    assert_eq!(r.unwrap().1.id, "youtube", "regex должен иметь приоритет над fuzzy");
}

#[test]
fn test_invalid_regex_no_panic() {
    let mut c = with_phrases(cmd("cmd", "voice"), "ru", &["тест"]);
    c.patterns = vec!["[bad(".to_string()];
    let list = cmd_list(vec![c]);
    let _ = fetch_command("тест", &list, None);
}

#[test]
fn test_voice_cmd_returns_false_by_default() {
    let c = cmd("noop", "voice");
    let a = execute_command("/t", &c);
    assert_eq!(a, CommandAction::Done(Ok(false)));
    assert_eq!(complete_command(&a, Ok(())), Ok(false));
}

#[test]
fn test_voice_cmd_with_allow_chaining_returns_true() {
    let mut c = cmd("noop", "voice");
    c.allow_chaining = true;
    let a = execute_command("/t", &c);
    assert_eq!(a, CommandAction::Done(Ok(true)));
    assert_eq!(complete_command(&a, Ok(())), Ok(true));
}

#[test]
fn test_allow_chaining_default_is_false() {
    for t in &["voice", "exe", "url", "cli"] {
        let c = cmd("x", t);
        assert!(!c.allow_chaining, "type={} should default to no chaining", t);
    }
}

#[test]
fn test_allow_chaining_opt_in() {
    let mut c = cmd("x", "voice");
    c.allow_chaining = true;
    assert!(c.allow_chaining);
}

#[test]
fn test_stop_chaining_returns_false() {
    let c = cmd("stop", "stop_chaining");
    assert_eq!(execute_command("/t", &c), CommandAction::Done(Ok(false)));
}

#[test]
fn test_unknown_type_is_err() {
    let c = cmd("unk", "totally_unknown");
    match execute_command("/t", &c) {
        CommandAction::Done(Err(m)) => assert_eq!(m, "Command type unknown: totally_unknown"),
        other => panic!("expected an error, got {:?}", other),
    }
}

fn pack(name: &str, id: &str) -> (String, JCommandsList) {
    (name.to_string(), JCommandsList { path: format!("/{name}"), commands: vec![cmd(id, "cli")] })
}

fn ids(lists: &[JCommandsList]) -> Vec<String> {
    lists.iter().flat_map(|l| l.commands.iter().map(|c| c.id.clone())).collect()
}

#[test]
fn user_pack_overrides_bundled_same_name() {
    let result = merge_packs(vec![pack("games", "witcher")], vec![pack("games", "cyberpunk")]);
    let ids = ids(&result);
    assert!(ids.contains(&"cyberpunk".to_string()), "user pack must override bundled");
    assert!(!ids.contains(&"witcher".to_string()), "bundled pack must be overridden by user");
}

#[test]
fn unique_user_pack_included() {
    let result = merge_packs(vec![pack("default", "default-cmd")], vec![pack("my-custom", "my-cmd")]);
    let ids = ids(&result);
    assert!(ids.contains(&"my-cmd".to_string()), "user-only pack must be included");
    assert!(ids.contains(&"default-cmd".to_string()), "bundled-only pack must be included");
}

#[test]
fn missing_user_dir_is_ok() {
    let result = merge_packs(vec![pack("pack", "cmd")], vec![]);
    assert_eq!(result.len(), 1);
}

#[test]
fn parse_commands_without_packs_is_error() {
    assert_eq!(parse_commands(vec![], vec![]), Err("No commands found".to_string()));
    assert_eq!(parse_commands(vec![pack("a", "x")], vec![]).unwrap().len(), 1);
}

#[test]
fn get_command_by_id_finds_first_in_pack_order() {
    let lists = vec![
        JCommandsList { path: "/a".to_string(), commands: vec![cmd("one", "voice")] },
        JCommandsList { path: "/b".to_string(), commands: vec![cmd("two", "cli"), cmd("one", "cli")] },
    ];
    let (p, c) = get_command_by_id(&lists, "one").unwrap();
    assert_eq!(p, "/a");
    assert_eq!(c.cmd_type, "voice");
    let (p2, _) = get_command_by_id(&lists, "two").unwrap();
    assert_eq!(p2, "/b");
    assert!(get_command_by_id(&lists, "three").is_none());
    assert_eq!(list_paths(&lists), vec!["/a", "/b"]);
}

#[test]
fn fetch_command_uses_fuzzy_pick_without_regex_hit() {
    let list = cmd_list(vec![cmd("a", "voice"), cmd("b", "voice")]);
    assert_eq!(fetch_command("  Привет  ", &list, Some((0, 1))).unwrap().1.id, "b");
    assert!(fetch_command("привет", &list, Some((0, 7))).is_none());
    assert!(fetch_command("привет", &list, None).is_none());
    // an empty phrase matches nothing
    assert!(fetch_command("   ", &list, Some((0, 0))).is_none());
}

#[test]
fn execute_actions_carry_their_work() {
    let mut exe = cmd("e", "exe");
    exe.exe_path = "C:/game.exe".to_string();
    exe.exe_args = vec!["-x".to_string()];
    assert_eq!(
        execute_command("/p", &exe),
        CommandAction::LaunchExe { exe_path: "C:/game.exe".to_string(), args: vec!["-x".to_string()], chain: false }
    );
    let mut url = cmd("u", "url");
    url.cli_cmd = "  https://example.org  ".to_string();
    url.allow_chaining = true;
    assert_eq!(
        execute_command("/p", &url),
        CommandAction::OpenUrl { url: Some("https://example.org".to_string()), chain: true }
    );
    let blank = cmd("u2", "url");
    assert_eq!(execute_command("/p", &blank), CommandAction::OpenUrl { url: None, chain: false });
    assert_eq!(execute_command("/p", &cmd("t", "terminate")), CommandAction::Terminate);
    let a = execute_command("/p", &exe);
    assert_eq!(complete_command(&a, Err("boom".to_string())), Err("Exe spawn error: boom".to_string()));
    let c = execute_command("/p", &cmd("c", "cli"));
    assert_eq!(complete_command(&c, Err("x".to_string())), Err("CLI command error: x".to_string()));
}

#[test]
fn test_no_match_returns_none() {
    let list = cmd_list(vec![with_phrases(cmd("greet", "voice"), "ru", &["привет"])]);
    // no pattern matches and the fuzzy scorer found nothing
    assert!(fetch_command("абракадабра xyz", &list, None).is_none());
}

#[test]
fn language_lookup_takes_the_entry_of_the_language() {
    let c = with_phrases(with_phrases(cmd("x", "voice"), "ru", &["один"]), "en", &["one", "two"]);
    assert_eq!(lang_lookup(&c.phrases, "en"), vec!["one".to_string(), "two".to_string()]);
    assert!(lang_lookup(&c.phrases, "de").is_empty());
}
