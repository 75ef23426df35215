use jarvis_core::command_registry::{get_snapshot, is_loaded, load, CommandRegistry};
use jarvis_core::commands::JCommandsList;

fn make_pack(id: &str) -> JCommandsList {
    JCommandsList { path: id.to_string(), commands: vec![] }
}

#[test]
fn test_load_stores_commands() {
    let mut reg = CommandRegistry::new();
    let pack = make_pack("test_pack_a");
    load(&mut reg, vec![pack]);
    assert!(is_loaded(&reg));
}

#[test]
fn test_load_is_atomic_replacement() {
    let mut reg = CommandRegistry::new();
    load(&mut reg, vec![make_pack("old_pack")]);
    load(&mut reg, vec![make_pack("new_pack_1"), make_pack("new_pack_2")]);
    let snapshot = get_snapshot(&reg);
    assert_eq!(snapshot.len(), 2);
}

#[test]
fn test_get_snapshot_returns_all() {
    let mut reg = CommandRegistry::new();
    load(&mut reg, vec![make_pack("snap_a"), make_pack("snap_b")]);
    let snapshot = get_snapshot(&reg);
    assert_eq!(snapshot.len(), 2);
}

#[test]
fn test_read_guard_gives_access() {
    let mut reg = CommandRegistry::new();
    load(&mut reg, vec![make_pack("guard_pack")]);
    let guard = reg.read();
    assert!(!guard.is_empty());
}

#[test]
fn test_is_loaded_true_after_load() {
    let mut reg = CommandRegistry::new();
    load(&mut reg, vec![make_pack("loaded_pack")]);
    assert!(is_loaded(&reg));
}

#[test]
fn new_registry_is_empty_and_not_loaded() {
    let reg = CommandRegistry::new();
    assert!(!is_loaded(&reg));
    assert!(get_snapshot(&reg).is_empty());
}

#[test]
fn load_replaces_packs_in_order() {
    let mut reg = CommandRegistry::new();
    load(&mut reg, vec![make_pack("old")]);
    load(&mut reg, vec![make_pack("b"), make_pack("a")]);
    let paths: Vec<String> = get_snapshot(&reg).into_iter().map(|p| p.path).collect();
    assert_eq!(paths, vec!["b", "a"]);
    load(&mut reg, vec![]);
    assert!(!is_loaded(&reg));
}
