use jarvis_core::catalog::ModelDef;
use jarvis_core::model_registry::{LoadStep, ModelRegistry};

fn def(id: &str, path: &str) -> ModelDef {
    ModelDef {
        id: id.to_string(),
        name: id.to_string(),
        tasks: vec![],
        description: String::new(),
        path: path.to_string(),
    }
}

#[test]
fn models_load_once_and_are_shared() {
    let mut reg: ModelRegistry<u32> = ModelRegistry::new();
    reg.set_catalog(vec![def("m1", "/a"), def("m1", "/b"), def("m2", "/c")]);
    match reg.load_step("m1") {
        LoadStep::Load(d) => assert_eq!(d.path, "/a"),
        _ => panic!("m1 is in the catalog and not loaded"),
    }
    match reg.load_step("zz") {
        LoadStep::NotInCatalog(m) => assert_eq!(m, "Model 'zz' not found in catalog"),
        _ => panic!("zz is not in the catalog"),
    }
    reg.store_loaded("m1", 7);
    reg.store_loaded("m1", 8);
    assert_eq!(reg.get("m1"), Some(&7));
    match reg.load_step("m1") {
        LoadStep::Ready(m) => assert_eq!(*m, 7),
        _ => panic!("m1 is loaded"),
    }
    reg.insert("m1", 9);
    assert_eq!(reg.get("m1"), Some(&9));
    assert_eq!(reg.loaded_ids(), vec!["m1".to_string()]);
    assert!(reg.unload("m1"));
    assert!(!reg.unload("m1"));
    assert!(!reg.is_loaded("m1"));
    assert!(reg.loaded_ids().is_empty());
}
