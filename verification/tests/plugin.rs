use jarvis_core::plugin::{PluginManifest, PluginPermissions};

fn manifest(id: &str, version: &str, name: &str) -> PluginManifest {
    PluginManifest {
        id: id.to_string(),
        version: version.to_string(),
        name: name.to_string(),
        description: "".to_string(),
        author: "".to_string(),
        commands: vec![],
        agents: vec![],
        capabilities: vec![],
        permissions: PluginPermissions::default(),
        endpoint: None,
        signature: None,
    }
}

#[test]
fn validate_rejects_empty_id() {
    let m = manifest("", "1.0.0", "X");
    assert!(m.validate().is_err());
}

#[test]
fn validate_rejects_empty_version() {
    let m = manifest("ok-id", "", "X");
    assert!(m.validate().is_err());
}

#[test]
fn validate_reports_first_blank_field() {
    assert_eq!(manifest("  ", "", "").validate(), Err("plugin.json: 'id' must not be empty".to_string()));
    assert_eq!(manifest("a", "\t", "").validate(), Err("plugin.json: 'version' must not be empty".to_string()));
    assert_eq!(manifest("a", "1", " ").validate(), Err("plugin.json: 'name' must not be empty".to_string()));
    assert_eq!(manifest("a", "1", "N").validate(), Ok(()));
}

#[test]
fn permissions_default_to_false() {
    let p = PluginPermissions::default();
    assert!(!p.filesystem && !p.network && !p.processes);
}
