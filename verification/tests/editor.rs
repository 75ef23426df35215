use jarvis_core::commands::{JCommand, SlotDefinition};
use jarvis_core::editor::{
    append_command_to_pack, build_toml, cmd_to_toml_block, commands_file_text, delete_command,
    sanitize_category, sanitize_pack_name, script_file_name, update_command, validate_name,
    validate_script_id, NewCommandInput,
};

fn input(id: &str, cmd_type: &str) -> NewCommandInput {
    NewCommandInput {
        id: id.to_string(),
        cmd_type: cmd_type.to_string(),
        description: String::new(),
        phrases_ru: vec![],
        phrases_en: vec![],
        exe_path: String::new(),
        exe_args: vec![],
        cli_cmd: String::new(),
        cli_args: vec![],
        patterns: vec![],
        sounds_ru: vec![],
        response_sound: String::new(),
    }
}

#[test]
fn pack_names_are_sanitized() {
    assert_eq!(sanitize_pack_name("My Pack!_1-x"), Ok("MyPack_1-x".to_string()));
    assert_eq!(
        sanitize_pack_name("!!!"),
        Err("Invalid pack name: use letters, digits, _ or -".to_string())
    );
    assert_eq!(sanitize_category("звуки 1"), "звуки1");
    assert_eq!(sanitize_category("../"), "general");
}

#[test]
fn names_and_ids_are_checked() {
    assert!(validate_name("games").is_ok());
    assert_eq!(validate_name(""), Err("Invalid pack name".to_string()));
    assert!(validate_name("a/b").is_err());
    assert!(validate_name("..x").is_err());
    assert!(validate_script_id("night_mode").is_ok());
    assert_eq!(validate_script_id("a\\b"), Err("Invalid script ID".to_string()));
    assert_eq!(script_file_name("night"), "night.toml");
}

#[test]
fn command_list_edits() {
    let mut list = vec![JCommand::new("a", "voice")];
    assert!(append_command_to_pack(&mut list, JCommand::new("b", "cli"), "p").is_ok());
    assert_eq!(list.len(), 2);
    assert_eq!(
        append_command_to_pack(&mut list, JCommand::new("a", "cli"), "p"),
        Err("Command 'a' already exists in 'p'".to_string())
    );
    assert!(update_command(&mut list, "b", JCommand::new("c", "url"), "p").is_ok());
    assert_eq!(list[1].id, "c");
    assert_eq!(
        update_command(&mut list, "zzz", JCommand::new("d", "url"), "p"),
        Err("Command 'zzz' not found in 'p'".to_string())
    );
    assert_eq!(delete_command(&mut list, "a", "p"), Ok(false));
    assert_eq!(delete_command(&mut list, "c", "p"), Ok(true));
    assert!(list.is_empty());
    assert_eq!(delete_command(&mut list, "c", "p"), Err("Command 'c' not found in 'p'".to_string()));
}

#[test]
fn toml_blocks() {
    let mut c = JCommand::new("open", "cli");
    c.cli_cmd = "start".to_string();
    c.phrases = vec![("ru".to_string(), vec!["открой".to_string()])];
    assert_eq!(
        cmd_to_toml_block(&c),
        "[[commands]]\nid = \"open\"\ntype = \"cli\"\ncli_cmd = \"start\"\nphrases.ru = [\"открой\"]"
    );
    assert_eq!(
        commands_file_text(&vec![JCommand::new("a", "voice"), JCommand::new("b", "voice")]),
        "[[commands]]\nid = \"a\"\ntype = \"voice\"\n\n[[commands]]\nid = \"b\"\ntype = \"voice\"\n"
    );
    let mut i = input("go", "url");
    i.exe_path = "https://x.org".to_string();
    assert_eq!(
        build_toml(&i),
        "[[commands]]\nid = \"go\"\ntype = \"url\"\ncli_cmd = \"https://x.org\"\nsounds.ru = [\"ok1\", \"ok2\", \"ok3\"]\n"
    );
}

#[test]
fn append_then_delete_restores_pack() {
    let mut list = vec![JCommand::new("a", "voice"), JCommand::new("b", "cli")];
    let before = list.clone();
    append_command_to_pack(&mut list, JCommand::new("new", "url"), "p").unwrap();
    assert_eq!(delete_command(&mut list, "new", "p"), Ok(false));
    assert_eq!(list, before);
}

#[test]
fn toml_strings_are_escaped() {
    let mut c = JCommand::new("say \"hi\"", "voice");
    c.description = "line\nbreak".to_string();
    assert_eq!(
        cmd_to_toml_block(&c),
        "[[commands]]\nid = \"say \\\"hi\\\"\"\ntype = \"voice\"\ndescription = \"line\\nbreak\""
    );
}

#[test]
fn sanitized_pack_names_sanitize_to_themselves() {
    let once = sanitize_pack_name("my pack!").unwrap();
    assert_eq!(once, "mypack");
    assert_eq!(sanitize_pack_name(&once), Ok(once.clone()));
    assert!(sanitize_pack_name("../").is_err());
}

#[test]
fn pack_text_keeps_chaining_and_slots_of_other_commands() {
    let mut a = JCommand::new("a", "voice");
    a.allow_chaining = true;
    a.slots.push(("city".to_string(), SlotDefinition { entity: "location".to_string() }));
    let b = JCommand::new("b", "exe");
    let mut list = vec![a.clone(), b.clone()];
    append_command_to_pack(&mut list, JCommand::new("c", "voice"), "pack").unwrap();
    delete_command(&mut list, "b", "pack").unwrap();
    assert_eq!(
        commands_file_text(&list),
        "[[commands]]\nid = \"a\"\ntype = \"voice\"\nallow_chaining = true\nslots.\"city\".entity = \"location\"\n\n[[commands]]\nid = \"c\"\ntype = \"voice\"\n"
    );
    // arguments are written even without the program or command they go with
    let mut d = JCommand::new("d", "cli");
    d.cli_args = vec!["-x".to_string()];
    d.exe_args = vec!["y".to_string()];
    assert_eq!(
        cmd_to_toml_block(&d),
        "[[commands]]\nid = \"d\"\ntype = \"cli\"\nexe_args = [\"y\"]\ncli_args = [\"-x\"]"
    );
}

#[test]
fn sanitized_names_hold_no_path_characters() {
    assert_eq!(sanitize_pack_name("a.b/c\\d e\u{2003}f"), Ok("abcdef".to_string()));
    assert_eq!(sanitize_category("../.."), "general");
    assert_eq!(sanitize_category("звуки-1"), "звуки-1");
}
