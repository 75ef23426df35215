use jarvis_core::commands::{JCommand, JCommandsList};
use jarvis_core::commands_hash::commands_hash;

fn with_phrases(id: &str, lang: &str, phrases: &[&str]) -> JCommand {
    let mut c = JCommand::new(id, "voice");
    c.phrases.push((lang.to_string(), phrases.iter().map(|s| s.to_string()).collect()));
    c
}

#[test]
fn hash_of_sorted_ids_and_phrases() {
    let lists = vec![
        JCommandsList { path: "/1".into(), commands: vec![with_phrases("b", "ru", &["привет"])] },
        JCommandsList { path: "/2".into(), commands: vec![with_phrases("a", "ru", &["пока", "всё"])] },
    ];
    assert_eq!(
        commands_hash(&lists, "ru"),
        "d6efddb85d3e1400c1e9c088d519f1ad4a37e21bc1dcba6064579b01f4648aef"
    );
}

#[test]
fn hash_of_no_commands() {
    assert_eq!(commands_hash(&[], "en"), "83488a92dc764efac0c941e8970a6443ee8aee4b385d94a2837187e011bccfa4");
}

#[test]
fn hash_ignores_pack_order() {
    let a = JCommandsList { path: "/1".into(), commands: vec![with_phrases("x", "ru", &["один"])] };
    let b = JCommandsList { path: "/2".into(), commands: vec![with_phrases("y", "ru", &["два"])] };
    assert_eq!(commands_hash(&[a.clone(), b.clone()], "ru"), commands_hash(&[b, a], "ru"));
}

#[test]
fn hash_ignores_order_of_three_packs() {
    let a = JCommandsList {
        path: "/a".into(),
        commands: vec![with_phrases("m", "en", &["open"]), with_phrases("c", "en", &["close"])],
    };
    let b = JCommandsList { path: "/b".into(), commands: vec![with_phrases("z", "en", &["stop", "halt"])] };
    let c = JCommandsList { path: "/c".into(), commands: vec![with_phrases("a", "en", &[])] };
    let h = commands_hash(&[a.clone(), b.clone(), c.clone()], "en");
    assert_eq!(h, commands_hash(&[c.clone(), a.clone(), b.clone()], "en"));
    assert_eq!(h, commands_hash(&[b, c, a], "en"));
    assert_eq!(h.len(), 64);
}
