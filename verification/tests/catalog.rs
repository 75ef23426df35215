use jarvis_core::catalog::{code_backends, get_model_def, get_options, is_lfs_pointer, is_valid_backend, load_model_def, ModelDef, Task};

fn def(id: &str, tasks: Vec<Task>) -> ModelDef {
    ModelDef { id: id.to_string(), name: "Test".to_string(), tasks, description: String::new(), path: String::new() }
}

#[test]
fn scan_models_skips_lfs_pointer_onnx() {
    let head = b"version https://git-lfs.github.com/spec/v1\noid sha256:abc123\nsize 235052644\n";
    // the loader reads at most the first 23 bytes of model.onnx
    assert!(is_lfs_pointer(&head[..23]));
    assert!(!is_lfs_pointer(&head[..10]));
    let r = load_model_def(def("test-model", vec![Task::Intent]), "/models/lfs-model", true);
    assert!(r.is_err(), "scan_models should exclude models with LFS pointer onnx files");
}

#[test]
fn scan_models_includes_real_onnx() {
    let head = b"\x08\x07\x12\x07pytorch";
    assert!(!is_lfs_pointer(&head[..]));
    let m = load_model_def(def("test-model", vec![Task::Intent]), "/models/real-model", is_lfs_pointer(&head[..])).unwrap();
    assert_eq!(m.id, "test-model");
    assert_eq!(m.path, "/models/real-model");
}

#[test]
fn scan_models_includes_model_without_onnx() {
    let m = load_model_def(def("vosk", vec![Task::Stt]), "/models/vosk-model", false);
    assert!(m.is_ok(), "scan_models should include models without a .onnx file");
}

#[test]
fn backends_and_options() {
    let models = vec![def("gliner-small", vec![Task::Slots]), def("minilm", vec![Task::Intent])];
    assert!(is_valid_backend(Task::Slots, "none", &models));
    assert!(is_valid_backend(Task::Slots, "gliner-small", &models));
    assert!(!is_valid_backend(Task::Intent, "gliner-small", &models));
    assert!(!is_valid_backend(Task::Slots, "unknown", &models));
    let opts = get_options(Task::Slots, &models);
    assert!(opts.iter().any(|o| o.id == "gliner-small" && o.model_id == Some("gliner-small".to_string())));
    assert!(code_backends(Task::Vad).iter().any(|o| o.id == "energy"));
    assert_eq!(get_model_def(&models, "minilm").unwrap().tasks, vec![Task::Intent]);
    assert!(get_model_def(&models, "x").is_none());
}
