use jarvis_core::commands::{JCommand, JCommandsList};
use jarvis_core::intent::{
    backend_after_load, classifier_kind, get_command_by_intent, init_plan, reinit_plan,
    select_embedding_model_id, training_cache_stale, ClassifierKind, IntentInit, IntentReinit,
    FALLBACK_EMBEDDING_MODEL,
};

#[test]
fn selects_minilm_for_english() {
    assert_eq!(select_embedding_model_id("en"), "all-MiniLM-L6-v2");
}

#[test]
fn selects_multilingual_for_russian() {
    assert_eq!(select_embedding_model_id("ru"), "paraphrase-multilingual-MiniLM-L12-v2");
}

#[test]
fn selects_multilingual_for_unknown_lang() {
    assert_eq!(select_embedding_model_id("xx"), "paraphrase-multilingual-MiniLM-L12-v2");
}

#[test]
fn fallback_model_is_minilm() {
    assert_eq!(FALLBACK_EMBEDDING_MODEL, "all-MiniLM-L6-v2");
}

#[test]
fn fallback_differs_from_multilingual() {
    assert_ne!(
        FALLBACK_EMBEDDING_MODEL,
        select_embedding_model_id("ru"),
        "fallback must be a different model than the Russian preferred model"
    );
}

#[test]
fn intent_init_plans() {
    assert_eq!(init_plan(Some("none"), "intent-classifier", "ru"), IntentInit::AlreadyInitialized);
    assert_eq!(init_plan(None, "none", "ru"), IntentInit::Disabled);
    assert_eq!(init_plan(None, "IntentClassifier", "ru"), IntentInit::IntentClassifier);
    assert_eq!(
        init_plan(None, "EmbeddingClassifier", "ru"),
        IntentInit::Embedding {
            preferred: "paraphrase-multilingual-MiniLM-L12-v2".to_string(),
            fallback: Some("all-MiniLM-L6-v2".to_string())
        }
    );
    assert_eq!(
        init_plan(None, "EmbeddingClassifier", "en"),
        IntentInit::Embedding { preferred: "all-MiniLM-L6-v2".to_string(), fallback: None }
    );
    assert_eq!(
        init_plan(None, "my-model", "en"),
        IntentInit::Embedding { preferred: "my-model".to_string(), fallback: None }
    );
    assert_eq!(backend_after_load("my-model", true), "my-model");
    assert_eq!(backend_after_load("my-model", false), "none");
}

#[test]
fn reinit_and_classifier_choice() {
    assert_eq!(reinit_plan(None), IntentReinit::Skip);
    assert_eq!(reinit_plan(Some("none")), IntentReinit::Skip);
    assert_eq!(reinit_plan(Some("intent-classifier")), IntentReinit::RetrainClassifier);
    assert_eq!(reinit_plan(Some("EmbeddingClassifier")), IntentReinit::RebuildVectors);
    assert_eq!(classifier_kind(None), ClassifierKind::NoIntent);
    assert_eq!(classifier_kind(Some("none")), ClassifierKind::NoIntent);
    assert_eq!(classifier_kind(Some("intent-classifier")), ClassifierKind::IntentClassifier);
    assert_eq!(classifier_kind(Some("x")), ClassifierKind::Embedding);
}

#[test]
fn training_cache_staleness() {
    assert!(training_cache_stale(false, "abc", "abc"));
    assert!(!training_cache_stale(true, " abc\n", "abc"));
    assert!(training_cache_stale(true, "abd", "abc"));
}

#[test]
fn command_by_intent_respects_disabled_backend() {
    let lists = vec![JCommandsList { path: "/p".to_string(), commands: vec![JCommand::new("open", "voice")] }];
    assert!(get_command_by_intent(&lists, "open", Some("none")).is_none());
    assert_eq!(get_command_by_intent(&lists, "open", Some("intent-classifier")).unwrap().1.id, "open");
    assert_eq!(get_command_by_intent(&lists, "open", None).unwrap().0, "/p");
    assert!(get_command_by_intent(&lists, "close", None).is_none());
}

#[test]
fn reinit_returns_ok_when_not_initialized() {
    // no backend recorded: retraining does nothing and succeeds
    assert_eq!(reinit_plan(None), IntentReinit::Skip);
}
