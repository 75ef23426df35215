use jarvis_core::agent_registry::{get, list_all, register, unregister, unregister_plugin, AgentEntry, AgentRegistry};

fn make_entry(id: &str, plugin_id: &str) -> AgentEntry {
    AgentEntry {
        id: id.to_string(),
        name: format!("{id} agent"),
        capabilities: vec!["test".to_string()],
        plugin_id: plugin_id.to_string(),
    }
}

#[test]
fn register_and_get_agent() {
    let mut reg = AgentRegistry::new();
    let id = "test-reg-get";
    register(&mut reg, make_entry(id, "plugin-a")).unwrap();
    let found = get(&reg, id).unwrap();
    assert_eq!(found.id, id);
}

#[test]
fn register_duplicate_returns_error() {
    let mut reg = AgentRegistry::new();
    let id = "test-reg-dup";
    register(&mut reg, make_entry(id, "plugin-a")).unwrap();
    let result = register(&mut reg, make_entry(id, "plugin-b"));
    assert!(result.is_err());
}

#[test]
fn unregister_removes_agent() {
    let mut reg = AgentRegistry::new();
    let id = "test-unreg";
    register(&mut reg, make_entry(id, "plugin-a")).unwrap();
    unregister(&mut reg, id);
    assert!(get(&reg, id).is_none());
}

#[test]
fn list_all_returns_sorted_entries() {
    let mut reg = AgentRegistry::new();
    unregister_plugin(&mut reg, "plugin-list-test");
    register(&mut reg, make_entry("zz-agent", "plugin-list-test")).unwrap();
    register(&mut reg, make_entry("aa-agent", "plugin-list-test")).unwrap();
    let all = list_all(&reg);
    let positions: Vec<usize> = ["aa-agent", "zz-agent"]
        .iter()
        .filter_map(|id| all.iter().position(|e| &e.id == id))
        .collect();
    assert!(positions[0] < positions[1], "list_all should be sorted by id");
    unregister_plugin(&mut reg, "plugin-list-test");
}

#[test]
fn unregister_plugin_removes_all_its_agents() {
    let mut reg = AgentRegistry::new();
    register(&mut reg, make_entry("agent-x1", "plugin-x")).unwrap();
    register(&mut reg, make_entry("agent-x2", "plugin-x")).unwrap();
    unregister_plugin(&mut reg, "plugin-x");
    assert!(get(&reg, "agent-x1").is_none());
    assert!(get(&reg, "agent-x2").is_none());
}

#[test]
fn get_returns_none_for_unknown_agent() {
    let reg = AgentRegistry::new();
    assert!(get(&reg, "definitely-not-registered-xyz").is_none());
}

#[test]
fn duplicate_error_names_the_registered_plugin() {
    let mut reg = AgentRegistry::new();
    register(&mut reg, make_entry("dup", "plugin-a")).unwrap();
    let err = register(&mut reg, make_entry("dup", "plugin-b")).unwrap_err();
    assert_eq!(err, "Agent 'dup' is already registered (plugin: plugin-a)");
    // the first registration stays
    assert_eq!(get(&reg, "dup").unwrap().plugin_id, "plugin-a");
}

#[test]
fn register_then_lookup_gives_back_the_entry() {
    let mut reg = AgentRegistry::new();
    let e = make_entry("browser-agent", "web-plugin");
    register(&mut reg, e.clone()).unwrap();
    assert_eq!(get(&reg, "browser-agent"), Some(e));
    assert_eq!(reg.len(), 1);
}

#[test]
fn unregister_plugin_keeps_other_plugins() {
    let mut reg = AgentRegistry::new();
    register(&mut reg, make_entry("a1", "p1")).unwrap();
    register(&mut reg, make_entry("b1", "p2")).unwrap();
    register(&mut reg, make_entry("a2", "p1")).unwrap();
    unregister_plugin(&mut reg, "p1");
    let ids: Vec<String> = list_all(&reg).into_iter().map(|e| e.id).collect();
    assert_eq!(ids, vec!["b1".to_string()]);
}

#[test]
fn unregister_unknown_is_noop() {
    let mut reg = AgentRegistry::new();
    register(&mut reg, make_entry("keep", "p")).unwrap();
    unregister(&mut reg, "missing");
    assert_eq!(reg.len(), 1);
}

#[test]
fn list_all_orders_by_id() {
    let mut reg = AgentRegistry::new();
    for id in ["m", "b", "z", "a"] {
        register(&mut reg, make_entry(id, "p")).unwrap();
    }
    let ids: Vec<String> = list_all(&reg).into_iter().map(|e| e.id).collect();
    assert_eq!(ids, vec!["a", "b", "m", "z"]);
}

#[test]
fn register_then_unregister_restores_registry() {
    let mut reg = AgentRegistry::new();
    register(&mut reg, make_entry("b", "p")).unwrap();
    register(&mut reg, make_entry("d", "p")).unwrap();
    let before = list_all(&reg);
    register(&mut reg, make_entry("c", "q")).unwrap();
    unregister(&mut reg, "c");
    assert_eq!(list_all(&reg), before);
}
